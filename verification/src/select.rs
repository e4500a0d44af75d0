use vstd::prelude::*;
use crate::error::Error;

verus! {

/// `needle` occurs in `hay` as a run of consecutive characters.
pub open spec fn occurs_in(needle: Seq<char>, hay: Seq<char>) -> bool {
    exists|i: int| 0 <= i && i + needle.len() <= hay.len() && #[trigger] hay.subrange(i, i + needle.len()) == needle
}

/// `needle` occurs in `hay` starting at position `i`.
pub open spec fn occurs_at(needle: Seq<char>, hay: Seq<char>, i: int) -> bool {
    0 <= i && i + needle.len() <= hay.len() && hay.subrange(i, i + needle.len()) == needle
}

/// Where `needle` occurs in `hay`, the characters of `hay` from some
/// position on are those of `needle`, one by one; this gives that position.
pub proof fn lemma_occurrence_position(needle: Seq<char>, hay: Seq<char>) -> (i: int)
    requires
        occurs_in(needle, hay),
    ensures
        0 <= i && i + needle.len() <= hay.len(),
        forall|k: int| 0 <= k < needle.len() ==> #[trigger] hay[i + k] == needle[k],
{
    let i = choose|i: int|
        0 <= i && i + needle.len() <= hay.len() && #[trigger] hay.subrange(i, i + needle.len())
            == needle;
    assert forall|k: int| 0 <= k < needle.len() implies #[trigger] hay[i + k] == needle[k] by {
        assert(hay.subrange(i, i + needle.len())[k] == hay[i + k]);
    }
    i
}

/// Where the characters of `hay` from position `i` on are those of
/// `needle`, one by one, `needle` occurs in `hay`.
pub proof fn lemma_occurs_from_position(needle: Seq<char>, hay: Seq<char>, i: int)
    requires
        0 <= i && i + needle.len() <= hay.len(),
        forall|k: int| 0 <= k < needle.len() ==> #[trigger] hay[i + k] == needle[k],
    ensures
        occurs_in(needle, hay),
{
    assert forall|k: int| 0 <= k < needle.len() implies hay.subrange(i, i + needle.len())[k]
        == needle[k] by {
        assert(hay[i + k] == needle[k]);
    }
    assert(hay.subrange(i, i + needle.len()) =~= needle);
}

/// The names of a list, as character sequences.
pub open spec fn name_views(names: Seq<String>) -> Seq<Seq<char>> {
    names.map_values(|s: String| s@)
}

/// `i` is the first position in `names` whose name contains `query`.
pub open spec fn is_first_match(names: Seq<Seq<char>>, query: Seq<char>, i: int) -> bool {
    &&& 0 <= i < names.len()
    &&& occurs_in(query, names[i])
    &&& forall|j: int| 0 <= j < i ==> !occurs_in(query, #[trigger] names[j])
}

/// No name in `names` contains `query`.
pub open spec fn no_match(names: Seq<Seq<char>>, query: Seq<char>) -> bool {
    forall|j: int| 0 <= j < names.len() ==> !occurs_in(query, #[trigger] names[j])
}

/// The characters of a string, in order.
pub fn chars_of(s: &str) -> (v: Vec<char>)
    ensures
        v@ == s@,
{
    let mut v: Vec<char> = Vec::new();
    for c in it: s.chars()
        invariant
            v@ == it.seq().take(it.index() as int),
            it.seq() == s@,
    {
        v.push(c);
    }
    v
}

/// Whether `needle` occurs in `hay` at position `at`.
fn matches_at(needle: &Vec<char>, hay: &Vec<char>, at: usize) -> (b: bool)
    requires
        at + needle.len() <= hay.len(),
    ensures
        b == (hay@.subrange(at as int, at + needle.len()) == needle@),
{
    let n = needle.len();
    let mut j: usize = 0;
    while j < n
        invariant
            n == needle.len(),
            at + n <= hay.len(),
            j <= n,
            forall|k: int| 0 <= k < j ==> hay@[at + k] == needle@[k],
        decreases n - j,
    {
        if hay[at + j] != needle[j] {
            assert(hay@.subrange(at as int, at + n)[j as int] != needle@[j as int]);
            return false;
        }
        j = j + 1;
    }
    assert(hay@.subrange(at as int, at + n) =~= needle@);
    true
}

/// Whether `needle` occurs in `hay` as a run of consecutive characters.
pub fn str_contains(hay: &str, needle: &str) -> (b: bool)
    ensures
        b == occurs_in(needle@, hay@),
{
    let h = chars_of(hay);
    let n = chars_of(needle);
    if n.len() > h.len() {
        return false;
    }
    let last = h.len() - n.len();
    let mut i: usize = 0;
    while i < last
        invariant
            h@ == hay@,
            n@ == needle@,
            last == h.len() - n.len(),
            n.len() <= h.len(),
            forall|k: int| 0 <= k < i ==> !occurs_at(needle@, hay@, k),
            i <= last,
        decreases last - i,
    {
        if matches_at(&n, &h, i) {
            assert(occurs_at(needle@, hay@, i as int));
            return true;
        }
        i = i + 1;
    }
    if matches_at(&n, &h, last) {
        assert(occurs_at(needle@, hay@, last as int));
        return true;
    }
    assert forall|k: int| 0 <= k && k + needle@.len() <= hay@.len() implies
        #[trigger] hay@.subrange(k, k + needle@.len()) != needle@ by {
        assert(!occurs_at(needle@, hay@, k));
    }
    false
}

/// Picks, among `names`, the first one that contains `query`; an API or a
/// device is selected this way by a part of its name.
pub fn select_by_name(names: &Vec<String>, query: &str) -> (r: Result<usize, Error>)
    ensures
        r matches Ok(i) ==> is_first_match(name_views(names@), query@, i as int),
        r is Err <==> no_match(name_views(names@), query@),
        r is Err ==> r == Err::<usize, Error>(Error::NotFound),
        r matches Ok(i) ==> i < names@.len() && occurs_in(query@, names@[i as int]@) && forall|j: int|
            0 <= j < i ==> !occurs_in(query@, #[trigger] names@[j]@),
        r is Err <==> forall|j: int| 0 <= j < names@.len() ==> !occurs_in(query@, #[trigger] names@[j]@),
{
    let ghost views = name_views(names@);
    let mut i: usize = 0;
    while i < names.len()
        invariant
            views == name_views(names@),
            i <= names.len(),
            forall|j: int| 0 <= j < i ==> !occurs_in(query@, #[trigger] views[j]),
        decreases names.len() - i,
    {
        if str_contains(names[i].as_str(), query) {
            assert(views[i as int] == names@[i as int]@);
            assert(occurs_in(query@, views[i as int]));
            assert forall|j: int| 0 <= j < i implies !occurs_in(query@, #[trigger] names@[j]@) by {
                assert(views[j] == names@[j]@);
            }
            return Ok(i);
        }
        i = i + 1;
    }
    proof {
        assert forall|j: int| 0 <= j < names@.len() implies !occurs_in(query@, #[trigger] names@[j]@) by {
            assert(views[j] == names@[j]@);
        }
    }
    Err(Error::NotFound)
}

/// Every name contains itself, so asking for a listed name by its full
/// text never fails: the first match exists, and it contains that text.
pub proof fn lemma_listed_name_is_found(names: Seq<Seq<char>>, k: int)
    requires
        0 <= k < names.len(),
    ensures
        !no_match(names, names[k]),
        occurs_in(names[k], names[k]),
{
    let s = names[k];
    assert(s.subrange(0int, 0int + s.len()) =~= s);
}

} // verus!
