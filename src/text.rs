use vstd::prelude::*;

verus! {

/// What `str::to_lowercase` gives for a string: it depends on the characters alone.
pub uninterp spec fn lower_of(s: Seq<char>) -> Seq<char>;

/// What a compiled regular expression yields for one capture group, over all
/// non-overlapping matches in `text`, in order.
pub uninterp spec fn regex_group_matches(pattern: Seq<char>, text: Seq<char>, group: int) -> Seq<
    Seq<char>,
>;

/// The views of a sequence of strings.
pub open spec fn views(v: Seq<String>) -> Seq<Seq<char>> {
    v.map_values(|s: String| s@)
}

/// Relies on `str::chars`, collected: the characters of `s` in order.
#[verifier::external_body]
pub(crate) fn char_vec(s: &str) -> (r: Vec<char>)
    ensures
        r@ == s@,
{
    s.chars().collect()
}

/// Relies on `String::from_iter` over chars: the string made of `v`'s characters.
#[verifier::external_body]
pub(crate) fn string_of(v: &[char]) -> (r: String)
    ensures
        r@ == v@,
{
    v.iter().collect()
}

/// Relies on `str::to_lowercase`; an empty string stays empty.
#[verifier::external_body]
pub(crate) fn lowercase(s: &str) -> (r: String)
    ensures
        r@ == lower_of(s@),
        s@.len() == 0 ==> r@.len() == 0,
{
    s.to_lowercase()
}

/// Relies on `regex::Regex::new` and `Regex::captures_iter`: the text of capture
/// group `group` in each match, skipping matches where the group did not take part.
/// A pattern that does not compile yields no matches.
#[verifier::external_body]
pub(crate) fn regex_captures(pattern: &str, text: &str, group: usize) -> (r: Vec<String>)
    ensures
        views(r@) == regex_group_matches(pattern@, text@, group as int),
{
    match regex::Regex::new(pattern) {
        Ok(re) => re.captures_iter(text).filter_map(|c| c.get(group)).map(
            |m| m.as_str().to_string(),
        ).collect(),
        Err(_) => Vec::new(),
    }
}

/// Index of the last occurrence of `c` in `s`, or -1.
pub open spec fn last_index_of(s: Seq<char>, c: char) -> int
    decreases s.len(),
{
    if s.len() == 0 {
        -1
    } else if s.last() == c {
        s.len() - 1
    } else {
        last_index_of(s.drop_last(), c)
    }
}

/// Index of the first occurrence of `c` in `s`, or -1.
pub open spec fn first_index_of(s: Seq<char>, c: char) -> int
    decreases s.len(),
{
    if s.len() == 0 {
        -1
    } else if s[0] == c {
        0
    } else if first_index_of(s.drop_first(), c) < 0 {
        -1
    } else {
        first_index_of(s.drop_first(), c) + 1
    }
}

/// The part of `s` after the last `c`; all of `s` where there is none.
pub open spec fn after_last(s: Seq<char>, c: char) -> Seq<char> {
    s.subrange(last_index_of(s, c) + 1, s.len() as int)
}

/// The part of `s` before the last `c`; empty where there is none.
pub open spec fn before_last(s: Seq<char>, c: char) -> Seq<char> {
    if last_index_of(s, c) < 0 {
        Seq::empty()
    } else {
        s.subrange(0, last_index_of(s, c))
    }
}

/// The part of `s` before the first `c`; all of `s` where there is none.
pub open spec fn before_first(s: Seq<char>, c: char) -> Seq<char> {
    if first_index_of(s, c) < 0 {
        s
    } else {
        s.subrange(0, first_index_of(s, c))
    }
}

/// The part of `s` after the first `c`; empty where there is none.
pub open spec fn after_first(s: Seq<char>, c: char) -> Seq<char> {
    if first_index_of(s, c) < 0 {
        Seq::empty()
    } else {
        s.subrange(first_index_of(s, c) + 1, s.len() as int)
    }
}

pub proof fn lemma_last_index_bounds(s: Seq<char>, c: char)
    ensures
        -1 <= last_index_of(s, c) < s.len(),
        last_index_of(s, c) >= 0 ==> s[last_index_of(s, c)] == c,
        last_index_of(s, c) < 0 <==> !s.contains(c),
    decreases s.len(),
{
    if s.len() > 0 {
        lemma_last_index_bounds(s.drop_last(), c);
        if s.last() != c {
            if s.drop_last().contains(c) {
                let k = choose|k: int| 0 <= k < s.drop_last().len() && s.drop_last()[k] == c;
                assert(s[k] == c);
            }
            if s.contains(c) {
                let k = choose|k: int| 0 <= k < s.len() && s[k] == c;
                assert(s.drop_last()[k] == c);
            }
        } else {
            assert(s[s.len() - 1] == c);
        }
    }
}

pub proof fn lemma_first_index_bounds(s: Seq<char>, c: char)
    ensures
        -1 <= first_index_of(s, c) < s.len(),
        first_index_of(s, c) >= 0 ==> s[first_index_of(s, c)] == c,
        first_index_of(s, c) < 0 <==> !s.contains(c),
        forall|j: int| 0 <= j < first_index_of(s, c) ==> s[j] != c,
    decreases s.len(),
{
    if s.len() > 0 {
        lemma_first_index_bounds(s.drop_first(), c);
        assert forall|j: int| 0 <= j < first_index_of(s, c) implies s[j] != c by {
            if j > 0 {
                assert(s[j] == s.drop_first()[j - 1]);
            }
        }
        if s[0] != c {
            if s.drop_first().contains(c) {
                let k = choose|k: int| 0 <= k < s.drop_first().len() && s.drop_first()[k] == c;
                assert(s[k + 1] == c);
            }
            if s.contains(c) {
                let k = choose|k: int| 0 <= k < s.len() && s[k] == c;
                assert(s.drop_first()[k - 1] == c);
            }
        } else {
            assert(s.contains(c));
        }
    }
}

/// The first `c` of `x + [c] + y`, where `x` holds none, is at `x.len()`.
pub proof fn lemma_first_index_of_join(x: Seq<char>, c: char, y: Seq<char>)
    requires
        !x.contains(c),
    ensures
        first_index_of(x + seq![c] + y, c) == x.len(),
        before_first(x + seq![c] + y, c) == x,
        after_first(x + seq![c] + y, c) == y,
    decreases x.len(),
{
    let s = x + seq![c] + y;
    if x.len() == 0 {
        assert(s[0] == c);
    } else {
        assert(s.drop_first() =~= x.drop_first() + seq![c] + y);
        assert(!x.drop_first().contains(c)) by {
            if x.drop_first().contains(c) {
                let k = choose|k: int| 0 <= k < x.drop_first().len() && x.drop_first()[k] == c;
                assert(x[k + 1] == c);
            }
        }
        assert(x[0] != c) by {
            if x[0] == c {
                assert(x.contains(c));
            }
        }
        lemma_first_index_of_join(x.drop_first(), c, y);
    }
    assert(s.subrange(0, x.len() as int) =~= x);
    assert(s.subrange(x.len() + 1 as int, s.len() as int) =~= y);
}

/// Splitting at the first `c` and joining again gives `s` back.
pub proof fn lemma_split_first(s: Seq<char>, c: char)
    requires
        s.contains(c),
    ensures
        s == before_first(s, c) + seq![c] + after_first(s, c),
        !before_first(s, c).contains(c),
{
    lemma_first_index_bounds(s, c);
    let k = first_index_of(s, c);
    assert(s =~= s.subrange(0, k) + seq![c] + s.subrange(k + 1, s.len() as int));
    assert(!s.subrange(0, k).contains(c)) by {
        if s.subrange(0, k).contains(c) {
            let j = choose|j: int| 0 <= j < k && s.subrange(0, k)[j] == c;
            assert(s[j] == c);
        }
    }
}

/// Scanning a prefix one character further moves the last index as expected.
proof fn lemma_last_index_step(s: Seq<char>, i: int, c: char)
    requires
        0 <= i < s.len(),
    ensures
        last_index_of(s.subrange(0, i + 1), c) == if s[i] == c {
            i
        } else {
            last_index_of(s.subrange(0, i), c)
        },
{
    assert(s.subrange(0, i + 1).drop_last() =~= s.subrange(0, i));
}

/// Index of the last `c` in `s`, if any.
pub fn find_last(s: &Vec<char>, c: char) -> (r: Option<usize>)
    ensures
        match r {
            Some(k) => k as int == last_index_of(s@, c) && k < s@.len(),
            None => last_index_of(s@, c) == -1,
        },
{
    let mut last: Option<usize> = None;
    let mut i: usize = 0;
    while i < s.len()
        invariant
            0 <= i <= s@.len(),
            match last {
                Some(k) => k as int == last_index_of(s@.subrange(0, i as int), c) && k < i,
                None => last_index_of(s@.subrange(0, i as int), c) == -1,
            },
        decreases s@.len() - i,
    {
        proof {
            lemma_last_index_step(s@, i as int, c);
        }
        if s[i] == c {
            last = Some(i);
        }
        i = i + 1;
    }
    assert(s@.subrange(0, s@.len() as int) =~= s@);
    last
}

/// Index of the first `c` in `s`, if any.
pub fn find_first(s: &Vec<char>, c: char) -> (r: Option<usize>)
    ensures
        match r {
            Some(k) => k as int == first_index_of(s@, c) && k < s@.len(),
            None => first_index_of(s@, c) == -1,
        },
{
    let mut i: usize = 0;
    assert(s@.subrange(0, s@.len() as int) =~= s@);
    while i < s.len()
        invariant
            0 <= i <= s@.len(),
            first_index_of(s@, c) == if first_index_of(s@.subrange(i as int, s@.len() as int), c)
                < 0 {
                -1
            } else {
                first_index_of(s@.subrange(i as int, s@.len() as int), c) + i
            },
        decreases s@.len() - i,
    {
        let ghost rest = s@.subrange(i as int, s@.len() as int);
        if s[i] == c {
            assert(rest[0] == c);
            return Some(i);
        }
        assert(rest.drop_first() =~= s@.subrange(i + 1, s@.len() as int));
        i = i + 1;
    }
    None
}

/// A copy of `s[lo..hi]` as a string.
pub(crate) fn slice_string(s: &Vec<char>, lo: usize, hi: usize) -> (r: String)
    requires
        lo <= hi <= s@.len(),
    ensures
        r@ == s@.subrange(lo as int, hi as int),
{
    string_of(&s.as_slice()[lo..hi])
}

/// The characters of `s` after the last `c` (all of `s` where there is none).
pub fn tail_after_last(s: &str, c: char) -> (r: String)
    ensures
        r@ == after_last(s@, c),
        r@.len() <= s@.len(),
{
    let v = char_vec(s);
    let n = v.len();
    proof {
        lemma_last_index_bounds(s@, c);
    }
    match find_last(&v, c) {
        Some(k) => slice_string(&v, k + 1, n),
        None => slice_string(&v, 0, n),
    }
}

/// Whether `s` contains `c`.
pub fn has_char(s: &str, c: char) -> (r: bool)
    ensures
        r == s@.contains(c),
{
    let v = char_vec(s);
    proof {
        lemma_first_index_bounds(s@, c);
    }
    find_first(&v, c).is_some()
}

/// Whether `p` is a prefix of `s`.
pub fn starts_with(s: &Vec<char>, p: &Vec<char>) -> (r: bool)
    ensures
        r == (p@.len() <= s@.len() && s@.subrange(0, p@.len() as int) == p@),
{
    if p.len() > s.len() {
        return false;
    }
    let mut i: usize = 0;
    while i < p.len()
        invariant
            0 <= i <= p@.len() <= s@.len(),
            s@.subrange(0, i as int) == p@.subrange(0, i as int),
        decreases p@.len() - i,
    {
        if s[i] != p[i] {
            assert(s@.subrange(0, p@.len() as int)[i as int] != p@[i as int]);
            return false;
        }
        assert(s@.subrange(0, i + 1) =~= s@.subrange(0, i as int).push(s@[i as int]));
        assert(p@.subrange(0, i + 1) =~= p@.subrange(0, i as int).push(p@[i as int]));
        i = i + 1;
    }
    assert(p@.subrange(0, p@.len() as int) =~= p@);
    true
}

/// `s` followed by `t`.
pub(crate) fn concat_str(s: &String, t: &str) -> (r: String)
    ensures
        r@ == s@ + t@,
{
    let mut r = s.clone();
    r.append(t);
    r
}

} // verus!
