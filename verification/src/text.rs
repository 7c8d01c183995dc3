use vstd::prelude::*;

verus! {

/// What a list of strings holds, each string as its characters.
pub open spec fn views(strings: Seq<String>) -> Seq<Seq<char>> {
    Seq::new(strings.len(), |i: int| strings[i]@)
}

/// Where the final segment of `path` ends: the length of `path` once the
/// separators at its end are dropped.
pub open spec fn segment_end(path: Seq<char>) -> int
    decreases path.len(),
{
    if path.len() > 0 && path.last() == '/' {
        segment_end(path.drop_last())
    } else {
        path.len() as int
    }
}

/// Where the segment that ends at `end` begins: just behind the nearest
/// separator before `end`, or at 0 if there is none.
pub open spec fn segment_start(path: Seq<char>, end: int) -> int
    decreases end,
{
    if end <= 0 || end > path.len() || path[end - 1] == '/' {
        if end < 0 { 0 } else { end }
    } else {
        segment_start(path, end - 1)
    }
}

/// The final segment of a `/`-separated path: what stands between the last
/// separator and the end, separators at the very end not counted. Empty for
/// the empty path and for a path made of separators only.
pub open spec fn final_segment(path: Seq<char>) -> Seq<char> {
    let end = segment_end(path);
    path.subrange(segment_start(path, end), end)
}

/// The characters of `s`, in order.
pub fn chars_of(s: &str) -> (v: Vec<char>)
    ensures
        v@ == s@,
{
    let mut v: Vec<char> = Vec::new();
    for c in it: s.chars()
        invariant
            v@ == it.seq().take(it.index() as int),
            it.seq() == s@,
    {
        v.push(c);
    }
    v
}

/// Whether two strings hold the same characters.
pub fn same_text(a: &str, b: &str) -> (same: bool)
    ensures
        same == (a@ == b@),
{
    let x = chars_of(a);
    let y = chars_of(b);
    if x.len() != y.len() {
        return false;
    }
    let mut i: usize = 0;
    while i < x.len()
        invariant
            i <= x.len(),
            x.len() == y.len(),
            x@ == a@,
            y@ == b@,
            forall|j: int| 0 <= j < i ==> x@[j] == y@[j],
        decreases x.len() - i,
    {
        if x[i] != y[i] {
            return false;
        }
        i += 1;
    }
    assert(x@ =~= y@);
    true
}

/// Builds a string from characters.
pub fn string_of(chars: &Vec<char>, from: usize, to: usize) -> (s: String)
    requires
        from <= to <= chars.len(),
    ensures
        s@ == chars@.subrange(from as int, to as int),
{
    let mut s = String::new();
    let mut i: usize = from;
    while i < to
        invariant
            from <= i <= to,
            to <= chars.len(),
            s@ == chars@.subrange(from as int, i as int),
        decreases to - i,
    {
        push_char(&mut s, chars[i]);
        assert(chars@.subrange(from as int, i + 1) =~= chars@.subrange(from as int, i as int).push(
            chars@[i as int],
        ));
        i += 1;
    }
    s
}

/// `String::push` of std: the string grows by the one character at its end.
#[verifier::external_body]
pub(crate) fn push_char(s: &mut String, c: char)
    ensures
        final(s)@ == old(s)@.push(c),
{
    s.push(c);
}

/// The final segment of `path`: the name of what the path leads to.
pub fn file_name(path: &str) -> (name: String)
    ensures
        name@ == final_segment(path@),
{
    let chars = chars_of(path);
    let mut end: usize = chars.len();
    assert(chars@.take(end as int) =~= chars@);
    while end > 0 && chars[end - 1] == '/'
        invariant
            end <= chars.len(),
            segment_end(chars@) == segment_end(chars@.take(end as int)),
        decreases end,
    {
        proof {
            let head = chars@.take(end as int);
            assert(head.last() == '/');
            assert(head.drop_last() =~= chars@.take(end - 1));
        }
        end -= 1;
    }
    assert(segment_end(chars@) == end) by {
        let head = chars@.take(end as int);
        if end > 0 {
            assert(head.last() == chars@[end - 1]);
        }
    }
    let mut start: usize = end;
    while start > 0 && chars[start - 1] != '/'
        invariant
            start <= end <= chars.len(),
            segment_start(chars@, end as int) == segment_start(chars@, start as int),
        decreases start,
    {
        start -= 1;
    }
    string_of(&chars, start, end)
}

} // verus!
