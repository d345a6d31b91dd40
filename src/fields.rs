use vstd::prelude::*;

use crate::text::{chars_of, string_of};

verus! {

/// The first index in `[k, end)` where `s` holds `c`, or `end` where none does.
pub open spec fn find_in(s: Seq<char>, c: char, k: int, end: int) -> int
    decreases end - k,
{
    if k >= end {
        end
    } else if s[k] == c {
        k
    } else {
        find_in(s, c, k + 1, end)
    }
}

/// The end of the line that holds index `k`: the next line feed, or the end.
pub open spec fn line_end(s: Seq<char>, k: int) -> int {
    find_in(s, '\n', k, s.len() as int)
}

/// A line of `s` starts at `i` with the field name `Host:` in any case,
/// followed by one space.
pub open spec fn host_field_at(s: Seq<char>, i: int) -> bool {
    &&& 0 <= i
    &&& i + 6 <= s.len()
    &&& (i == 0 || s[i - 1] == '\n')
    &&& (s[i] == 'h' || s[i] == 'H')
    &&& (s[i + 1] == 'o' || s[i + 1] == 'O')
    &&& (s[i + 2] == 's' || s[i + 2] == 'S')
    &&& (s[i + 3] == 't' || s[i + 3] == 'T')
    &&& s[i + 4] == ':'
    &&& s[i + 5] == ' '
}

/// The value that starts at `k`: the rest of its line, less one trailing CR.
pub open spec fn field_value(s: Seq<char>, k: int) -> Seq<char> {
    let e = line_end(s, k);
    if e > k && s[e - 1] == '\r' {
        s.subrange(k, e - 1)
    } else {
        s.subrange(k, e)
    }
}

/// `i` is the first line of `s` that is a `Host` field.
pub open spec fn first_host_field(s: Seq<char>, i: int) -> bool {
    &&& host_field_at(s, i)
    &&& forall|j: int| 0 <= j < i ==> !#[trigger] host_field_at(s, j)
}

pub open spec fn is_upper(c: char) -> bool {
    'A' <= c && c <= 'Z'
}

/// The request line `METHOD SP URI SP VERSION CR` of `s`, where the method is
/// one or more upper-case letters and the URI holds no space, is well formed;
/// `m` is the index of its first space and `n` that of its second.
pub open spec fn request_line(s: Seq<char>, m: int, n: int) -> bool {
    let e = line_end(s, 0);
    &&& e >= 1
    &&& s[e - 1] == '\r'
    &&& m == find_in(s, ' ', 0, e)
    &&& 1 <= m < e
    &&& forall|k: int| 0 <= k < m ==> is_upper(#[trigger] s[k])
    &&& n == find_in(s, ' ', m + 1, e)
    &&& n < e
}

proof fn lemma_find_in_bounds(s: Seq<char>, c: char, k: int, end: int)
    requires
        0 <= k <= end <= s.len(),
    ensures
        k <= find_in(s, c, k, end) <= end,
        find_in(s, c, k, end) < end ==> s[find_in(s, c, k, end)] == c,
        forall|j: int| k <= j < find_in(s, c, k, end) ==> s[j] != c,
    decreases end - k,
{
    if k < end && s[k] != c {
        lemma_find_in_bounds(s, c, k + 1, end);
    }
}

/// The first index in `[from, end)` where `cs` holds `c`, or `end`.
fn find_char(cs: &Vec<char>, c: char, from: usize, end: usize) -> (r: usize)
    requires
        from <= end <= cs@.len(),
    ensures
        r == find_in(cs@, c, from as int, end as int),
        from <= r <= end,
{
    let mut k: usize = from;
    while k < end && cs[k] != c
        invariant
            from <= k <= end,
            end <= cs@.len(),
            find_in(cs@, c, from as int, end as int) == find_in(cs@, c, k as int, end as int),
        decreases end - k,
    {
        k = k + 1;
    }
    k
}

/// The value of the first `Host` field of a request head, less a trailing CR.
pub fn extract_host(header: &str) -> (r: Result<String, ()>)
    ensures
        match r {
            Ok(v) => exists|i: int|
                first_host_field(header@, i) && v@ == field_value(header@, i + 6),
            Err(()) => forall|i: int| !#[trigger] host_field_at(header@, i),
        },
{
    let cs = chars_of(header);
    let n = cs.len();
    let mut i: usize = 0;
    while i < n
        invariant
            i <= n,
            n == cs@.len(),
            cs@ == header@,
            forall|j: int| 0 <= j < i ==> !#[trigger] host_field_at(cs@, j),
        decreases n - i,
    {
        if (i == 0 || cs[i - 1] == '\n') && n - i >= 6 && (cs[i] == 'h' || cs[i] == 'H') && (
        cs[i + 1] == 'o' || cs[i + 1] == 'O') && (cs[i + 2] == 's' || cs[i + 2] == 'S') && (cs[i
            + 3] == 't' || cs[i + 3] == 'T') && cs[i + 4] == ':' && cs[i + 5] == ' ' {
            let s = i + 6;
            let e = find_char(&cs, '\n', s, n);
            proof {
                lemma_find_in_bounds(cs@, '\n', s as int, n as int);
            }
            let end = if e > s && cs[e - 1] == '\r' {
                e - 1
            } else {
                e
            };
            let v = string_of(&cs, s, end);
            assert(first_host_field(header@, i as int));
            return Ok(v);
        }
        i = i + 1;
    }
    assert forall|j: int| !#[trigger] host_field_at(header@, j) by {
        if 0 <= j < n {
        }
    }
    Err(())
}

/// The URI of the request line of a request head.
pub fn extract_uri(header: &str) -> (r: Result<String, ()>)
    ensures
        match r {
            Ok(v) => exists|m: int, n: int|
                request_line(header@, m, n) && v@ == header@.subrange(m + 1, n),
            Err(()) => forall|m: int, n: int| !request_line(header@, m, n),
        },
{
    let cs = chars_of(header);
    let len = cs.len();
    let e = find_char(&cs, '\n', 0, len);
    if e == 0 || cs[e - 1] != '\r' {
        return Err(());
    }
    let m = find_char(&cs, ' ', 0, e);
    if m == 0 || m == e {
        return Err(());
    }
    let mut k: usize = 0;
    while k < m
        invariant
            k <= m,
            m <= cs@.len(),
            cs@ == header@,
            len == cs@.len(),
            e == line_end(header@, 0),
            m == find_in(header@, ' ', 0, e as int),
            forall|j: int| 0 <= j < k ==> is_upper(#[trigger] cs@[j]),
        decreases m - k,
    {
        if !('A' <= cs[k] && cs[k] <= 'Z') {
            assert forall|m2: int, n2: int| !request_line(header@, m2, n2) by {
                if request_line(header@, m2, n2) {
                    assert(m2 == m);
                    assert(is_upper(header@[k as int]));
                }
            }
            return Err(());
        }
        k = k + 1;
    }
    let n = find_char(&cs, ' ', m + 1, e);
    if n == e {
        return Err(());
    }
    let v = string_of(&cs, m + 1, n);
    assert(request_line(header@, m as int, n as int));
    Ok(v)
}

} // verus!
