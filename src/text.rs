//! Character-level helpers shared by the path syntax and the renderer.
use vstd::prelude::*;

verus! {

/// Index of the first `|[` in `s` at or after `i`, or -1 when there is none.
pub open spec fn find_suffix(s: Seq<char>, i: int) -> int
    decreases s.len() - i,
{
    if i < 0 || i + 1 >= s.len() {
        -1
    } else if s[i] == '|' && s[i + 1] == '[' {
        i
    } else {
        find_suffix(s, i + 1)
    }
}

pub proof fn lemma_find_suffix(s: Seq<char>, i: int)
    ensures
        find_suffix(s, i) >= 0 ==> i <= find_suffix(s, i) && find_suffix(s, i) + 1 < s.len()
            && s[find_suffix(s, i)] == '|' && s[find_suffix(s, i) + 1] == '[',
        find_suffix(s, i) < 0 ==> find_suffix(s, i) == -1,
    decreases s.len() - i,
{
    if 0 <= i && i + 1 < s.len() && !(s[i] == '|' && s[i + 1] == '[') {
        lemma_find_suffix(s, i + 1);
    }
}

/// `s` cut at every `sep`; always at least one (possibly empty) segment.
pub open spec fn split(s: Seq<char>, sep: char) -> Seq<Seq<char>>
    decreases s.len(),
{
    if s.len() == 0 {
        seq![Seq::<char>::empty()]
    } else {
        let rest = split(s.drop_first(), sep);
        if s[0] == sep {
            seq![Seq::<char>::empty()] + rest
        } else {
            rest.update(0, seq![s[0]] + rest[0])
        }
    }
}

/// The segments of `c` with `sep` between each two.
pub open spec fn join(c: Seq<Seq<char>>, sep: char) -> Seq<char>
    decreases c.len(),
{
    if c.len() == 0 {
        Seq::<char>::empty()
    } else if c.len() == 1 {
        c[0]
    } else {
        c[0] + seq![sep] + join(c.drop_first(), sep)
    }
}

pub proof fn lemma_split_nonempty(s: Seq<char>, sep: char)
    ensures
        split(s, sep).len() >= 1,
    decreases s.len(),
{
    if s.len() > 0 {
        lemma_split_nonempty(s.drop_first(), sep);
    }
}

/// Joining the segments of a split gives the text back.
pub proof fn lemma_join_split(s: Seq<char>, sep: char)
    ensures
        join(split(s, sep), sep) == s,
    decreases s.len(),
{
    if s.len() > 0 {
        let rest = split(s.drop_first(), sep);
        lemma_split_nonempty(s.drop_first(), sep);
        lemma_join_split(s.drop_first(), sep);
        if s[0] == sep {
            let c = seq![Seq::<char>::empty()] + rest;
            assert(c.drop_first() =~= rest);
            assert(s =~= Seq::<char>::empty() + seq![sep] + s.drop_first());
        } else {
            let c = rest.update(0, seq![s[0]] + rest[0]);
            if rest.len() == 1 {
                assert(s =~= seq![s[0]] + s.drop_first());
            } else {
                assert(c.drop_first() =~= rest.drop_first());
                assert(s =~= seq![s[0]] + s.drop_first());
                assert(join(c, sep) =~= seq![s[0]] + (rest[0] + seq![sep] + join(rest.drop_first(), sep)));
            }
        }
    }
}

/// Relies on String::push: the character is appended at the end.
#[verifier::external_body]
pub(crate) fn push_char(s: &mut String, c: char)
    ensures
        final(s)@ == old(s)@.push(c),
{
    s.push(c)
}

/// Appends `t` to `s`.
pub fn push_str(s: &mut String, t: &str)
    ensures
        final(s)@ == old(s)@ + t@,
{
    let n = t.unicode_len();
    let mut i: usize = 0;
    while i < n
        invariant
            n == t@.len(),
            i <= n,
            s@ == old(s)@ + t@.take(i as int),
        decreases n - i,
    {
        let c = t.get_char(i);
        push_char(s, c);
        assert(t@.take(i + 1) =~= t@.take(i as int).push(c));
        i = i + 1;
    }
    assert(t@.take(n as int) =~= t@);
}

/// Position of the first `|[` in `s` at or after `from`, or `None`.
pub fn find_suffix_str(s: &str, from: usize) -> (r: Option<usize>)
    requires
        from <= s@.len(),
    ensures
        r matches Some(i) ==> i as int == find_suffix(s@, from as int),
        r is None ==> find_suffix(s@, from as int) == -1,
{
    let n = s.unicode_len();
    let mut i: usize = from;
    while i < n && n - i > 1
        invariant
            n == s@.len(),
            from <= i <= n,
            find_suffix(s@, from as int) == find_suffix(s@, i as int),
        decreases n - i,
    {
        if s.get_char(i) == '|' && s.get_char(i + 1) == '[' {
            return Some(i);
        }
        i = i + 1;
    }
    None
}

/// Cuts `s` at every `sep`.
pub fn split_str(s: &str, sep: char) -> (r: Vec<String>)
    ensures
        r@.map_values(|x: String| x@) == split(s@, sep),
{
    let n = s.unicode_len();
    let mut done: Vec<String> = Vec::new();
    let mut end: usize = n;
    let mut i: usize = n;
    proof {
        assert(s@.skip(n as int) =~= Seq::<char>::empty());
        assert(s@.subrange(n as int, n as int) =~= Seq::<char>::empty());
        assert(done@.map_values(|x: String| x@) =~= Seq::<Seq<char>>::empty());
    }
    while i > 0
        invariant
            n == s@.len(),
            i <= end <= n,
            split(s@.skip(i as int), sep) == seq![s@.subrange(i as int, end as int)] + done@.map_values(|x: String| x@),
        decreases i,
    {
        proof {
            assert(s@.skip(i as int) =~= s@.skip(i - 1).drop_first());
        }
        let c = s.get_char(i - 1);
        let ghost prev = done@.map_values(|x: String| x@);
        if c == sep {
            let seg = s.substring_char(i, end).to_owned();
            done.insert(0, seg);
            assert(done@.map_values(|x: String| x@) =~= seq![s@.subrange(i as int, end as int)] + prev);
            assert(s@.subrange(i - 1, i - 1) =~= Seq::<char>::empty());
            end = i - 1;
        } else {
            assert(s@.subrange(i - 1, end as int) =~= seq![c] + s@.subrange(i as int, end as int));
        }
        i = i - 1;
    }
    let ghost prev0 = done@.map_values(|x: String| x@);
    let seg = s.substring_char(0, end).to_owned();
    done.insert(0, seg);
    proof {
        assert(s@.skip(0) =~= s@);
        assert(done@.map_values(|x: String| x@) =~= seq![s@.subrange(0, end as int)] + prev0);
    }
    done
}

} // verus!
