//! Splitting a raw blob into its pipe-delimited fields, and joining fields
//! back into a blob.

use vstd::prelude::*;

verus! {

/// The fields of a blob, split on every `'|'`, exactly as `str::split`
/// yields them: an empty blob has one empty field, and a delimiter at either
/// end or two adjacent delimiters yield empty fields.
pub open spec fn fields_of(s: Seq<char>) -> Seq<Seq<char>>
    decreases s.len(),
{
    if s.len() == 0 {
        seq![Seq::<char>::empty()]
    } else if s[0] == '|' {
        seq![Seq::<char>::empty()] + fields_of(s.subrange(1, s.len() as int))
    } else {
        let rest = fields_of(s.subrange(1, s.len() as int));
        seq![seq![s[0]] + rest[0]] + rest.subrange(1, rest.len() as int)
    }
}

/// A field that holds no delimiter.
pub open spec fn field_clean(f: Seq<char>) -> bool {
    forall|j: int| 0 <= j < f.len() ==> f[j] != '|'
}

/// The blob that renders a non-empty field sequence, one `'|'` between
/// consecutive fields.
pub open spec fn join_fields(fs: Seq<Seq<char>>) -> Seq<char>
    decreases fs.len(),
{
    if fs.len() == 0 {
        Seq::<char>::empty()
    } else if fs.len() == 1 {
        fs[0]
    } else {
        fs[0] + seq!['|'] + join_fields(fs.subrange(1, fs.len() as int))
    }
}

pub proof fn lemma_fields_of_nonempty(s: Seq<char>)
    ensures
        fields_of(s).len() >= 1,
    decreases s.len(),
{
    if s.len() > 0 {
        lemma_fields_of_nonempty(s.subrange(1, s.len() as int));
    }
}

/// Splitting distributes over a delimiter between two blobs.
pub proof fn lemma_fields_of_concat(a: Seq<char>, b: Seq<char>)
    ensures
        fields_of(a + seq!['|'] + b) =~= fields_of(a) + fields_of(b),
    decreases a.len(),
{
    let s = a + seq!['|'] + b;
    lemma_fields_of_nonempty(b);
    if a.len() == 0 {
        assert(s[0] == '|');
        assert(s.subrange(1, s.len() as int) =~= b);
        assert(fields_of(a) =~= seq![Seq::<char>::empty()]);
    } else {
        assert(s[0] == a[0]);
        assert(s.subrange(1, s.len() as int) =~= a.subrange(1, a.len() as int) + seq!['|'] + b);
        lemma_fields_of_concat(a.subrange(1, a.len() as int), b);
        lemma_fields_of_nonempty(a.subrange(1, a.len() as int));
        let ra = fields_of(a.subrange(1, a.len() as int));
        let r = fields_of(s.subrange(1, s.len() as int));
        assert(r =~= ra + fields_of(b));
        if a[0] == '|' {
            assert(fields_of(s) =~= seq![Seq::<char>::empty()] + r);
            assert(fields_of(a) =~= seq![Seq::<char>::empty()] + ra);
        } else {
            assert(r[0] == ra[0]);
            assert(r.subrange(1, r.len() as int) =~= ra.subrange(1, ra.len() as int) + fields_of(
                b,
            ));
            assert(fields_of(s) =~= seq![seq![a[0]] + ra[0]] + (ra.subrange(1, ra.len() as int)
                + fields_of(b)));
            assert(fields_of(a) =~= seq![seq![a[0]] + ra[0]] + ra.subrange(1, ra.len() as int));
        }
    }
}

/// Splitting a clean field yields that field alone.
pub proof fn lemma_fields_of_clean(s: Seq<char>)
    requires
        field_clean(s),
    ensures
        fields_of(s) =~= seq![s],
    decreases s.len(),
{
    if s.len() > 0 {
        assert(s[0] != '|');
        assert(field_clean(s.subrange(1, s.len() as int)));
        lemma_fields_of_clean(s.subrange(1, s.len() as int));
        let rest = fields_of(s.subrange(1, s.len() as int));
        assert(rest[0] == s.subrange(1, s.len() as int));
        assert(rest.subrange(1, rest.len() as int) =~= Seq::<Seq<char>>::empty());
        assert(seq![s[0]] + s.subrange(1, s.len() as int) =~= s);
        assert(fields_of(s) =~= seq![seq![s[0]] + rest[0]]);
    } else {
        assert(s =~= Seq::<char>::empty());
    }
}

/// Joining clean fields and splitting the result restores the fields.
pub proof fn lemma_fields_round_trip(fs: Seq<Seq<char>>)
    requires
        fs.len() >= 1,
        forall|i: int| 0 <= i < fs.len() ==> field_clean(#[trigger] fs[i]),
    ensures
        fields_of(join_fields(fs)) =~= fs,
    decreases fs.len(),
{
    if fs.len() == 1 {
        lemma_fields_of_clean(fs[0]);
    } else {
        let tail = fs.subrange(1, fs.len() as int);
        lemma_fields_round_trip(tail);
        lemma_fields_of_clean(fs[0]);
        lemma_fields_of_concat(fs[0], join_fields(tail));
        assert(fields_of(join_fields(fs)) =~= seq![fs[0]] + tail);
        assert(seq![fs[0]] + tail =~= fs);
    }
}

/// Joining one more field appends one delimiter and the field.
pub proof fn lemma_join_fields_push(fs: Seq<Seq<char>>, f: Seq<char>)
    ensures
        fs.len() == 0 ==> join_fields(fs.push(f)) == f,
        fs.len() > 0 ==> join_fields(fs.push(f)) == join_fields(fs) + seq!['|'] + f,
    decreases fs.len(),
{
    let g = fs.push(f);
    if fs.len() == 0 {
        assert(g.len() == 1);
        assert(g[0] == f);
    } else if fs.len() == 1 {
        assert(g.len() == 2);
        assert(g.subrange(1, 2) =~= seq![f]);
        assert(join_fields(seq![f]) == f);
        assert(g[0] == fs[0]);
    } else {
        assert(g.subrange(1, g.len() as int) =~= fs.subrange(1, fs.len() as int).push(f));
        lemma_join_fields_push(fs.subrange(1, fs.len() as int), f);
        assert(g[0] == fs[0]);
        assert(fs[0] + seq!['|'] + (join_fields(fs.subrange(1, fs.len() as int)) + seq!['|'] + f)
            =~= (fs[0] + seq!['|'] + join_fields(fs.subrange(1, fs.len() as int))) + seq!['|'] + f);
    }
}

/// Render a field sequence as one blob, one `'|'` between consecutive
/// fields.
pub fn join_all(fields: &Vec<String>) -> (out: String)
    ensures
        out@ == join_fields(views_of(fields@)),
{
    let mut out = String::new();
    let n = fields.len();
    let mut i: usize = 0;
    proof {
        assert(views_of(fields@).subrange(0, 0) =~= Seq::<Seq<char>>::empty());
    }
    while i < n
        invariant
            n == fields@.len(),
            0 <= i <= n,
            out@ == join_fields(views_of(fields@).subrange(0, i as int)),
        decreases n - i,
    {
        let ghost vf = views_of(fields@);
        proof {
            reveal_strlit("|");
            assert(vf.subrange(0, i + 1) =~= vf.subrange(0, i as int).push(vf[i as int]));
            lemma_join_fields_push(vf.subrange(0, i as int), vf[i as int]);
            assert("|"@ =~= seq!['|']);
            assert(Seq::<char>::empty() + vf[i as int] =~= vf[i as int]);
        }
        if i > 0 {
            out.append("|");
        }
        out.append(fields[i].as_str());
        i = i + 1;
    }
    proof {
        assert(views_of(fields@).subrange(0, n as int) =~= views_of(fields@));
    }
    out
}

/// The views of a vector of owned fields.
pub open spec fn views_of(v: Seq<String>) -> Seq<Seq<char>> {
    v.map_values(|f: String| f@)
}

/// Split a blob on `'|'`, as the wire format delimits record fields.
pub fn split_fields(s: &str) -> (r: Vec<String>)
    ensures
        views_of(r@) =~= fields_of(s@),
{
    let n = s.unicode_len();
    let mut r: Vec<String> = Vec::new();
    let mut start: usize = 0;
    let mut i: usize = 0;
    proof {
        lemma_fields_of_nonempty(s@);
        assert(s@.subrange(0, n as int) =~= s@);
        assert(views_of(r@) =~= Seq::<Seq<char>>::empty());
        assert(s@.subrange(0, 0) + fields_of(s@)[0] =~= fields_of(s@)[0]);
        assert(fields_of(s@) =~= seq![fields_of(s@)[0]] + fields_of(s@).subrange(
            1,
            fields_of(s@).len() as int,
        ));
    }
    while i < n
        invariant
            n == s@.len(),
            0 <= start <= i <= n,
            fields_of(s@) =~= views_of(r@) + seq![
                s@.subrange(start as int, i as int) + fields_of(
                    s@.subrange(i as int, n as int),
                )[0],
            ] + fields_of(s@.subrange(i as int, n as int)).subrange(
                1,
                fields_of(s@.subrange(i as int, n as int)).len() as int,
            ),
        decreases n - i,
    {
        let ghost tail = s@.subrange(i as int, n as int);
        let ghost tailf = fields_of(tail);
        let ghost tail2 = s@.subrange(i + 1, n as int);
        let ghost tailf2 = fields_of(tail2);
        proof {
            lemma_fields_of_nonempty(tail2);
            assert(tail.len() > 0);
            assert(tail[0] == s@[i as int]);
            assert(tail.subrange(1, tail.len() as int) =~= tail2);
        }
        let c = s.get_char(i);
        if c == '|' {
            let cur = s.substring_char(start, i).to_owned();
            proof {
                assert(tailf =~= seq![Seq::<char>::empty()] + tailf2);
                assert(tailf[0] =~= Seq::<char>::empty());
                assert(tailf.subrange(1, tailf.len() as int) =~= tailf2);
                assert(s@.subrange(start as int, i as int) + tailf[0] =~= s@.subrange(
                    start as int,
                    i as int,
                ));
                assert(tailf2 =~= seq![tailf2[0]] + tailf2.subrange(1, tailf2.len() as int));
            }
            r.push(cur);
            proof {
                assert(views_of(r@) =~= views_of(r@.drop_last()) + seq![
                    s@.subrange(start as int, i as int),
                ]);
                assert(s@.subrange(i + 1, i + 1) + tailf2[0] =~= tailf2[0]);
            }
            start = i + 1;
        } else {
            proof {
                let g = tailf2;
                assert(tailf =~= seq![seq![tail[0]] + g[0]] + g.subrange(1, g.len() as int));
                assert(tailf[0] =~= seq![s@[i as int]] + g[0]);
                assert(tailf.subrange(1, tailf.len() as int) =~= g.subrange(1, g.len() as int));
                assert(s@.subrange(start as int, i + 1) =~= s@.subrange(start as int, i as int)
                    + seq![s@[i as int]]);
                assert(s@.subrange(start as int, i + 1) + g[0] =~= s@.subrange(
                    start as int,
                    i as int,
                ) + tailf[0]);
            }
        }
        i = i + 1;
    }
    let last = s.substring_char(start, n).to_owned();
    proof {
        assert(s@.subrange(n as int, n as int) =~= Seq::<char>::empty());
        assert(fields_of(Seq::<char>::empty()) =~= seq![Seq::<char>::empty()]);
        assert(s@.subrange(start as int, n as int) + Seq::<char>::empty() =~= s@.subrange(
            start as int,
            n as int,
        ));
    }
    r.push(last);
    proof {
        assert(views_of(r@) =~= views_of(r@.drop_last()) + seq![s@.subrange(start as int, n as int)]);
        assert(views_of(r@) =~= fields_of(s@));
    }
    r
}

} // verus!
