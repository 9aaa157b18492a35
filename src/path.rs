use vstd::prelude::*;

verus! {

/// The pieces of `s` between `/` characters, empty pieces included
/// (`"/a/b"` gives `["", "a", "b"]`).
pub open spec fn split_slash(s: Seq<char>) -> Seq<Seq<char>>
    decreases s.len(),
{
    if s.len() == 0 {
        seq![Seq::<char>::empty()]
    } else {
        let rest = split_slash(s.drop_last());
        if s.last() == '/' {
            rest.push(Seq::<char>::empty())
        } else {
            rest.update(rest.len() - 1, rest.last().push(s.last()))
        }
    }
}

pub open spec fn views(v: Seq<String>) -> Seq<Seq<char>> {
    v.map_values(|x: String| x@)
}

proof fn lemma_split_nonempty(s: Seq<char>)
    ensures
        split_slash(s).len() >= 1,
    decreases s.len(),
{
    if s.len() > 0 {
        lemma_split_nonempty(s.drop_last());
    }
}

/// Splits a request path or a route pattern at each `/`.
pub fn split_path(p: &str) -> (r: Vec<String>)
    ensures
        views(r@) == split_slash(p@),
{
    let n = p.unicode_len();
    let mut acc: Vec<String> = Vec::new();
    let mut start: usize = 0;
    let mut i: usize = 0;
    proof {
        assert(views(acc@) =~= Seq::<Seq<char>>::empty());
        assert(p@.subrange(0, 0) =~= Seq::<char>::empty());
        assert(views(acc@).push(p@.subrange(0, 0)) =~= split_slash(p@.subrange(0, 0)));
    }
    while i < n
        invariant
            n == p@.len(),
            start <= i <= n,
            views(acc@).push(p@.subrange(start as int, i as int)) == split_slash(
                p@.subrange(0, i as int),
            ),
        decreases n - i,
    {
        let c = p.get_char(i);
        proof {
            let pre = p@.subrange(0, i as int + 1);
            assert(pre.drop_last() =~= p@.subrange(0, i as int));
            assert(pre.last() == c);
            lemma_split_nonempty(p@.subrange(0, i as int));
        }
        if c == '/' {
            let piece = String::from_str(p.substring_char(start, i));
            let ghost before = acc@;
            acc.push(piece);
            proof {
                assert(views(acc@) =~= views(before).push(piece@));
                assert(p@.subrange(i as int + 1, i as int + 1) =~= Seq::<char>::empty());
                assert(views(acc@).push(p@.subrange(i as int + 1, i as int + 1)) =~= split_slash(
                    p@.subrange(0, i as int),
                ).push(Seq::<char>::empty()));
            }
            start = i + 1;
        } else {
            proof {
                assert(p@.subrange(start as int, i as int).push(c) =~= p@.subrange(
                    start as int,
                    i as int + 1,
                ));
                let rest = split_slash(p@.subrange(0, i as int));
                assert(rest.update(rest.len() - 1, rest.last().push(c)) =~= views(acc@).push(
                    p@.subrange(start as int, i as int + 1),
                ));
            }
        }
        i = i + 1;
    }
    let last = String::from_str(p.substring_char(start, n));
    acc.push(last);
    proof {
        assert(p@.subrange(0, n as int) =~= p@);
        assert(views(acc@) =~= views(acc@.drop_last()).push(last@));
    }
    acc
}

} // verus!
