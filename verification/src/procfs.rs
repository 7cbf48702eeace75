//! Pure readers of `/proc` file contents: the caller reads the bytes and
//! the functions here extract the values.

use vstd::prelude::*;

verus! {

/// The largest index holding a slash, when the sequence has one.
pub open spec fn last_slash(s: Seq<char>) -> int {
    choose|i: int| 0 <= i < s.len() && s[i] == '/' && (forall|j: int| i < j < s.len() ==> s[j] != '/')
}

/// The part of a path after its last slash; a path without one is its
/// own basename.
pub open spec fn basename(s: Seq<char>) -> Seq<char> {
    if exists|i: int| 0 <= i < s.len() && s[i] == '/' {
        s.skip(last_slash(s) + 1)
    } else {
        s
    }
}

/// The short process name: the basename of the cmdline path.
pub fn name(cmdline: &str) -> (r: &str)
    ensures
        r@ == basename(cmdline@),
{
    let len = cmdline.unicode_len();
    let mut i: usize = len;
    while i > 0
        invariant
            i <= len,
            len == cmdline@.len(),
            forall|j: int| i <= j < len ==> cmdline@[j] != '/',
        decreases i,
    {
        if cmdline.get_char(i - 1) == '/' {
            let r = cmdline.substring_char(i, len);
            proof {
                let ghost li = (i - 1) as int;
                assert(cmdline@[li] == '/');
                assert(exists|m: int|
                    0 <= m < len && cmdline@[m] == '/' && (forall|j: int|
                        m < j < len ==> cmdline@[j] != '/'));
                let m = last_slash(cmdline@);
                assert(cmdline@[m] == '/');
                if m < li {
                    assert(cmdline@[li] != '/');
                }
                if m > li {
                    assert(cmdline@[m] != '/');
                }
                assert(m == li);
                assert(r@ == cmdline@.skip(li + 1));
            }
            return r;
        }
        i = i - 1;
    }
    proof {
        assert(forall|j: int| 0 <= j < len ==> cmdline@[j] != '/');
    }
    cmdline
}

/// The index of the first colon, when the line has one.
pub open spec fn first_colon(s: Seq<char>, from: int) -> int {
    choose|i: int| from <= i < s.len() && s[i] == ':' && (forall|j: int| from <= j < i ==> s[j] != ':')
}

/// Whether a colon occurs at or after `from`.
pub open spec fn has_colon(s: Seq<char>, from: int) -> bool {
    exists|i: int| from <= i < s.len() && s[i] == ':'
}

/// The cgroup path of a `/proc/<pid>/cgroup` line: what stands between
/// the second colon and the trailing newline.
pub open spec fn cgroup_of(s: Seq<char>) -> Seq<char> {
    let c1 = first_colon(s, 0);
    let c2 = first_colon(s, c1 + 1);
    let end = if s.len() > 0 && s[s.len() - 1] == '\u{a}' {
        s.len() - 1
    } else {
        s.len() as int
    };
    if c2 + 1 <= end {
        s.subrange(c2 + 1, end)
    } else {
        Seq::empty()
    }
}

/// Finds the first colon at or after `from`.
fn find_colon(content: &str, len: usize, from: usize) -> (r: Option<usize>)
    requires
        len == content@.len(),
        from <= len,
    ensures
        (r is Some) == has_colon(content@, from as int),
        r matches Some(i) ==> from <= i < len && content@[i as int] == ':' && i as int
            == first_colon(content@, from as int),
{
    let mut i: usize = from;
    while i < len
        invariant
            from <= i <= len,
            len == content@.len(),
            forall|j: int| from <= j < i ==> content@[j] != ':',
        decreases len - i,
    {
        if content.get_char(i) == ':' {
            proof {
                let m = first_colon(content@, from as int);
                assert(content@[m] == ':' && (forall|j: int|
                    from <= j < m ==> content@[j] != ':'));
                if m < i {
                    assert(content@[m] != ':');
                }
                if m > i {
                    assert(content@[i as int] != ':');
                }
            }
            return Some(i);
        }
        i = i + 1;
    }
    None
}

/// The final component of the control-group file: the text between the
/// second colon and the trailing newline, or nothing when the file does
/// not have two colons.
pub fn cgroup(content: &str) -> (r: Option<&str>)
    ensures
        ({
            let s = content@;
            if has_colon(s, 0) && has_colon(s, first_colon(s, 0) + 1) {
                r matches Some(g) && g@ == cgroup_of(s)
            } else {
                r is None
            }
        }),
{
    let len = content.unicode_len();
    let c1 = match find_colon(content, len, 0) {
        Some(i) => i,
        None => {
            return None;
        },
    };
    let c2 = match find_colon(content, len, c1 + 1) {
        Some(i) => i,
        None => {
            return None;
        },
    };
    let end = if len > 0 && content.get_char(len - 1) == '\n' {
        len - 1
    } else {
        len
    };
    if c2 + 1 <= end {
        Some(content.substring_char(c2 + 1, end))
    } else {
        proof {
            assert(cgroup_of(content@) =~= Seq::<char>::empty());
        }
        Some(content.substring_char(len, len))
    }
}

/// ASCII whitespace as `/proc` files use it.
pub open spec fn is_space(c: char) -> bool {
    c == ' ' || c == '\t' || c == '\n' || c == '\r'
}

/// An ASCII decimal digit.
pub open spec fn is_digit(c: char) -> bool {
    '0' <= c && c <= '9'
}

/// The numeric value of a digit sequence, most significant first.
pub open spec fn digits_val(s: Seq<char>) -> int
    decreases s.len(),
{
    if s.len() == 0 {
        0
    } else {
        digits_val(s.drop_last()) * 10 + (s.last() as int - '0' as int)
    }
}

/// A longer digit prefix never has a smaller value.
proof fn lemma_digits_val_prefix_le(s: Seq<char>, i: int)
    requires
        0 <= i <= s.len(),
        forall|j: int| 0 <= j < s.len() ==> is_digit(#[trigger] s[j]),
    ensures
        digits_val(s.take(i)) <= digits_val(s),
    decreases s.len() - i,
{
    if i < s.len() {
        lemma_digits_val_prefix_le(s, i + 1);
        assert(s.take(i + 1).drop_last() =~= s.take(i));
        assert(s.take(i + 1).last() == s[i]);
        assert(digits_val(s.take(i + 1)) == digits_val(s.take(i)) * 10 + (s[i] as int
            - '0' as int));
        assert(s[i] as int - '0' as int >= 0);
        assert(digits_val(s.take(i)) >= 0) by {
            lemma_digits_val_nonneg(s.take(i));
        }
    } else {
        assert(s.take(i) =~= s);
    }
}

/// Digit strings denote non-negative numbers.
proof fn lemma_digits_val_nonneg(s: Seq<char>)
    requires
        forall|j: int| 0 <= j < s.len() ==> is_digit(#[trigger] s[j]),
    ensures
        digits_val(s) >= 0,
    decreases s.len(),
{
    if s.len() > 0 {
        assert(forall|j: int| 0 <= j < s.drop_last().len() ==> is_digit(#[trigger] s.drop_last()[j]));
        lemma_digits_val_nonneg(s.drop_last());
    }
}

/// Parses a whole token as an unsigned 32-bit decimal number.
pub fn parse_u32(s: &str) -> (r: Option<u32>)
    ensures
        ({
            let ok = s@.len() > 0 && (forall|j: int| 0 <= j < s@.len() ==> is_digit(#[trigger] s@[j]))
                && digits_val(s@) <= u32::MAX;
            &&& (r is Some) == ok
            &&& (r matches Some(v) ==> v as int == digits_val(s@))
        }),
{
    let len = s.unicode_len();
    if len == 0 {
        return None;
    }
    let mut acc: u64 = 0;
    let mut i: usize = 0;
    proof {
        assert(s@.take(0) =~= Seq::<char>::empty());
    }
    while i < len
        invariant
            i <= len,
            len == s@.len(),
            forall|j: int| 0 <= j < i ==> is_digit(#[trigger] s@[j]),
            acc as int == digits_val(s@.take(i as int)),
            acc <= u32::MAX,
        decreases len - i,
    {
        let c = s.get_char(i);
        if !(c >= '0' && c <= '9') {
            return None;
        }
        let d = (c as u32) - ('0' as u32);
        let next: u64 = acc * 10 + (d as u64);
        proof {
            assert(s@.take(i + 1 as int).drop_last() =~= s@.take(i as int));
            assert(s@.take(i + 1 as int).last() == s@[i as int]);
            assert(d == s@[i as int] as int - '0' as int);
        }
        if next > 0xffff_ffff {
            proof {
                assert(digits_val(s@.take(i + 1 as int)) == next);
                if (forall|j: int| 0 <= j < s@.len() ==> is_digit(#[trigger] s@[j]))
                    && digits_val(s@) <= u32::MAX {
                    lemma_digits_val_prefix_le(s@, i + 1 as int);
                }
            }
            return None;
        }
        acc = next;
        i = i + 1;
    }
    proof {
        assert(s@.take(len as int) =~= s@);
    }
    Some(acc as u32)
}

/// The boundaries of one line: `a` starts the file or follows a newline,
/// `b` ends the file or holds the next newline, and nothing between is a
/// newline.
pub open spec fn is_line(s: Seq<char>, a: int, b: int) -> bool {
    &&& 0 <= a <= b <= s.len()
    &&& (a == 0 || s[a - 1] == '\n')
    &&& (b == s.len() || s[b] == '\n')
    &&& forall|k: int| a <= k < b ==> s[k] != '\n'
}

/// Whether the line `[a, b)` begins with `key`.
pub open spec fn line_matches(s: Seq<char>, a: int, b: int, key: Seq<char>) -> bool {
    b - a >= key.len() && s.subrange(a, a + key.len()) == key
}

/// The sequence without leading spaces or tabs.
pub open spec fn trim_front(s: Seq<char>) -> Seq<char>
    decreases s.len(),
{
    if s.len() > 0 && (s[0] == ' ' || s[0] == '\t' || s[0] == '\r') {
        trim_front(s.skip(1))
    } else {
        s
    }
}

/// The sequence without trailing spaces or tabs.
pub open spec fn trim_back(s: Seq<char>) -> Seq<char>
    decreases s.len(),
{
    if s.len() > 0 && (s.last() == ' ' || s.last() == '\t' || s.last() == '\r') {
        trim_back(s.drop_last())
    } else {
        s
    }
}

/// The sequence without surrounding spaces and tabs.
pub open spec fn trimmed(s: Seq<char>) -> Seq<char> {
    trim_back(trim_front(s))
}

/// Trims spaces and tabs from a slice of the content.
fn trim_range(content: &str, len: usize, a: usize, b: usize) -> (r: &str)
    requires
        len == content@.len(),
        a <= b <= len,
    ensures
        r@ == trimmed(content@.subrange(a as int, b as int)),
{
    let mut lo = a;
    let mut hi = b;
    while lo < hi
        invariant
            a <= lo <= hi <= b,
            len == content@.len(),
            b <= len,
            trim_front(content@.subrange(a as int, b as int)) == trim_front(
                content@.subrange(lo as int, b as int),
            ),
            hi == b,
        decreases hi - lo,
    {
        let c = content.get_char(lo);
        proof {
            assert(content@.subrange(lo as int, b as int)[0] == content@[lo as int]);
            assert(content@.subrange(lo as int, b as int).skip(1) =~= content@.subrange(
                lo + 1 as int,
                b as int,
            ));
        }
        if c == ' ' || c == '\t' || c == '\r' {
            lo = lo + 1;
        } else {
            break ;
        }
    }
    proof {
        if lo == hi {
            assert(content@.subrange(lo as int, b as int).len() == b - lo);
        }
        assert(trim_front(content@.subrange(a as int, b as int)) == content@.subrange(
            lo as int,
            b as int,
        )) by {
            if lo < b {
                assert(content@.subrange(lo as int, b as int)[0] == content@[lo as int]);
            } else {
                assert(content@.subrange(lo as int, b as int).len() == 0);
            }
        }
        assert(content@.subrange(lo as int, hi as int) == content@.subrange(lo as int, b as int));
    }
    while hi > lo
        invariant
            lo <= hi <= b,
            b <= len,
            len == content@.len(),
            trim_back(content@.subrange(lo as int, b as int)) == trim_back(
                content@.subrange(lo as int, hi as int),
            ),
        decreases hi - lo,
    {
        let c = content.get_char(hi - 1);
        proof {
            assert(content@.subrange(lo as int, hi as int).last() == content@[hi - 1 as int]);
            assert(content@.subrange(lo as int, hi as int).drop_last() =~= content@.subrange(
                lo as int,
                hi - 1 as int,
            ));
        }
        if c == ' ' || c == '\t' || c == '\r' {
            hi = hi - 1;
        } else {
            break ;
        }
    }
    proof {
        assert(trim_back(content@.subrange(lo as int, hi as int)) == content@.subrange(
            lo as int,
            hi as int,
        )) by {
            if hi > lo {
                assert(content@.subrange(lo as int, hi as int).last() == content@[hi - 1 as int]);
            } else {
                assert(content@.subrange(lo as int, hi as int).len() == 0);
            }
        }
    }
    content.substring_char(lo, hi)
}

/// Finds a line that starts with `key` and returns what follows it, with
/// surrounding blanks removed.
pub fn file_key<'a>(content: &'a str, key: &str) -> (r: Option<&'a str>)
    ensures
        r matches Some(v) ==> exists|a: int, b: int|
            #[trigger] is_line(content@, a, b) && line_matches(content@, a, b, key@) && (forall|
                a2: int,
                b2: int,
            |
                #[trigger] is_line(content@, a2, b2) && a2 < a ==> !line_matches(
                    content@,
                    a2,
                    b2,
                    key@,
                )) && v@ == trimmed(content@.subrange(a + key@.len(), b)),
        r is None ==> forall|a: int, b: int|
            #[trigger] is_line(content@, a, b) ==> !line_matches(content@, a, b, key@),
{
    let len = content.unicode_len();
    let key_len = key.unicode_len();
    let mut start: usize = 0;
    while start < len
        invariant
            start <= len,
            len == content@.len(),
            key_len == key@.len(),
            start == 0 || content@[start - 1] == '\n',
            forall|a: int, b: int|
                #[trigger] is_line(content@, a, b) && a < start ==> !line_matches(
                    content@,
                    a,
                    b,
                    key@,
                ),
        decreases len - start,
    {
        let mut end: usize = start;
        while end < len && content.get_char(end) != '\n'
            invariant
                start <= end <= len,
                len == content@.len(),
                forall|k: int| start <= k < end ==> content@[k] != '\n',
            decreases len - end,
        {
            end = end + 1;
        }
        proof {
            assert(is_line(content@, start as int, end as int));
        }
        if end - start >= key_len {
            let candidate = content.substring_char(start, start + key_len);
            if crate::text::str_eq(candidate, key) {
                proof {
                    assert(content@.subrange(
                        start as int,
                        start as int + key@.len(),
                    ) == key@);
                    assert(line_matches(content@, start as int, end as int, key@));
                }
                let v = trim_range(content, len, start + key_len, end);
                return Some(v);
            }
        }
        proof {
            assert forall|a: int, b: int|
                #[trigger] is_line(content@, a, b) && a < end + 1 implies !line_matches(
                content@,
                a,
                b,
                key@,
            ) by {
                if a >= start {
                    if a > start {
                        assert(content@[a - 1] == '\n');
                        assert(a - 1 >= end);
                        assert(a - 1 == end || content@[a - 1] != '\n');
                        assert(a == end + 1);
                    } else {
                        assert(a == start);
                        assert(b == end) by {
                            if b < end {
                                assert(content@[b] == '\n');
                            }
                            if b > end {
                                assert(content@[end as int] == '\n');
                            }
                        }
                    }
                }
            }
        }
        if end < len {
            start = end + 1;
        } else {
            proof {
                assert forall|a: int, b: int|
                    #[trigger] is_line(content@, a, b) implies !line_matches(
                    content@,
                    a,
                    b,
                    key@,
                ) by {
                    assert(a <= content@.len());
                    assert(a < end + 1);
                }
            }
            return None;
        }
    }
    if key_len == 0 {
        let v = trim_range(content, len, len, len);
        proof {
            assert(is_line(content@, len as int, len as int));
            assert(content@.subrange(len as int, len as int) =~= key@);
            assert(line_matches(content@, len as int, len as int, key@));
        }
        return Some(v);
    }
    proof {
        assert forall|a: int, b: int|
            #[trigger] is_line(content@, a, b) implies !line_matches(content@, a, b, key@) by {
            if a < start {
            } else {
                assert(a == len && b == len);
            }
        }
    }
    None
}

/// A trimmed line value that denotes an unsigned 32-bit number.
pub open spec fn parses_u32(t: Seq<char>) -> bool {
    t.len() > 0 && (forall|j: int| 0 <= j < t.len() ==> is_digit(#[trigger] t[j])) && digits_val(t)
        <= u32::MAX
}

/// The parent PID recorded in a `/proc/<pid>/status` file: the value of
/// the first line that begins `PPid:`, when it is a number; nothing when
/// no such line exists or its value is not one.
pub fn parent_id(content: &str) -> (r: Option<u32>)
    ensures
        ({
            let s = content@;
            let key = "PPid:"@;
            if exists|a: int, b: int| #[trigger] is_line(s, a, b) && line_matches(s, a, b, key) {
                exists|a: int, b: int|
                    #[trigger] is_line(s, a, b) && line_matches(s, a, b, key) && (forall|
                        a2: int,
                        b2: int,
                    |
                        #[trigger] is_line(s, a2, b2) && a2 < a ==> !line_matches(s, a2, b2, key))
                        && ({
                        let t = trimmed(s.subrange(a + key.len(), b));
                        if parses_u32(t) {
                            r matches Some(v) && v as int == digits_val(t)
                        } else {
                            r is None
                        }
                    })
            } else {
                r is None
            }
        }),
{
    let value = match file_key(content, "PPid:") {
        Some(v) => v,
        None => {
            proof {
                if exists|a: int, b: int|
                    #[trigger] is_line(content@, a, b) && line_matches(content@, a, b, "PPid:"@) {
                    let (a, b) = choose|a: int, b: int|
                        #[trigger] is_line(content@, a, b) && line_matches(
                            content@,
                            a,
                            b,
                            "PPid:"@,
                        );
                    assert(!line_matches(content@, a, b, "PPid:"@));
                }
            }
            return None;
        },
    };
    let r = parse_u32(value);
    proof {
        let (a, b) = choose|a: int, b: int|
            #[trigger] is_line(content@, a, b) && line_matches(content@, a, b, "PPid:"@) && (
            forall|a2: int, b2: int|
                #[trigger] is_line(content@, a2, b2) && a2 < a ==> !line_matches(
                    content@,
                    a2,
                    b2,
                    "PPid:"@,
                )) && value@ == trimmed(content@.subrange(a + "PPid:"@.len(), b));
        let t = trimmed(content@.subrange(a + "PPid:"@.len(), b));
        assert(value@ == t);
        assert(parses_u32(t) == (r is Some));
    }
    r
}


/// Whether the character at `i` is blank.
fn space_at(content: &str, i: usize) -> (r: bool)
    requires
        i < content@.len(),
    ensures
        r == is_space(content@[i as int]),
{
    let c = content.get_char(i);
    c == ' ' || c == '\t' || c == '\n' || c == '\r'
}

/// The boundaries of one whitespace-separated token.
pub open spec fn is_token(s: Seq<char>, a: int, b: int) -> bool {
    &&& 0 <= a < b <= s.len()
    &&& (a == 0 || is_space(s[a - 1]))
    &&& (b == s.len() || is_space(s[b]))
    &&& forall|k: int| a <= k < b ==> !is_space(s[k])
}

/// The end of the token that starts at `i`: the first blank at or after
/// it, or the end of the content.
pub open spec fn token_end(s: Seq<char>, i: int) -> int
    decreases s.len() - i
    when 0 <= i <= s.len()
{
    if i >= s.len() {
        i
    } else if is_space(s[i]) {
        i
    } else {
        token_end(s, i + 1)
    }
}

/// `token_end` stays within the content, skips no blank, and moves past
/// a non-blank head.
pub proof fn lemma_token_end_bounds(s: Seq<char>, i: int)
    requires
        0 <= i <= s.len(),
    ensures
        i <= token_end(s, i) <= s.len(),
        forall|k: int| i <= k < token_end(s, i) ==> !is_space(s[k]),
        token_end(s, i) == s.len() || is_space(s[token_end(s, i)]),
    decreases s.len() - i,
{
    if i < s.len() && !is_space(s[i]) {
        lemma_token_end_bounds(s, i + 1);
    }
}

/// Scanned token boundaries pin `token_end` exactly.
proof fn lemma_token_end_characterize(s: Seq<char>, a: int, b: int)
    requires
        0 <= a <= b <= s.len(),
        forall|k: int| a <= k < b ==> !is_space(s[k]),
        b == s.len() || is_space(s[b]),
    ensures
        token_end(s, a) == b,
    decreases b - a,
{
    if a < b {
        lemma_token_end_characterize(s, a + 1, b);
    }
}

/// The child PIDs the content lists from position `i` on: one value per
/// whitespace-separated all-digit token whose number fits in 32 bits, in
/// file order.
pub open spec fn children_from(s: Seq<char>, i: int) -> Seq<u32>
    decreases s.len() - i
    when 0 <= i <= s.len()
    via children_from_decreases
{
    if i >= s.len() {
        Seq::empty()
    } else if is_space(s[i]) {
        children_from(s, i + 1)
    } else {
        let b = token_end(s, i);
        (if (forall|j: int| i <= j < b ==> is_digit(s[j])) && digits_val(s.subrange(i, b))
            <= u32::MAX {
            seq![digits_val(s.subrange(i, b)) as u32]
        } else {
            Seq::empty()
        }) + children_from(s, b)
    }
}

#[via_fn]
proof fn children_from_decreases(s: Seq<char>, i: int) {
    if 0 <= i && i < s.len() && !is_space(s[i]) {
        lemma_token_end_bounds(s, i);
    }
}

/// The child PIDs listed in a `/proc/<pid>/task/<pid>/children` file:
/// exactly the whitespace-separated runs of digits that fit in 32 bits,
/// in file order.
pub fn children(content: &str) -> (r: Vec<u32>)
    ensures
        r@ == children_from(content@, 0),
{
    let ghost s = content@;
    let len = content.unicode_len();
    let mut r: Vec<u32> = Vec::new();
    let mut i: usize = 0;
    while i < len
        invariant
            i <= len,
            len == s.len(),
            content@ == s,
            children_from(s, 0) == r@ + children_from(s, i as int),
        decreases len - i,
    {
        let c = content.get_char(i);
        let space = c == ' ' || c == '\t' || c == '\n' || c == '\r';
        if space {
            proof {
                assert(children_from(s, i as int) == children_from(s, i + 1 as int));
            }
            i = i + 1;
        } else {
            let a = i;
            let mut b = i;
            while b < len && !space_at(content, b)
                invariant
                    a <= b <= len,
                    len == s.len(),
                    content@ == s,
                    forall|k: int| a <= k < b ==> !is_space(s[k]),
                decreases len - b,
            {
                b = b + 1;
            }
            proof {
                lemma_token_end_characterize(s, a as int, b as int);
                assert(token_end(s, a as int) == b);
            }
            let token = content.substring_char(a, b);
            let parsed = parse_u32(token);
            proof {
                assert(token@ == s.subrange(a as int, b as int));
                assert forall|j: int| a <= j < b implies is_digit(s[j]) == is_digit(
                    token@[j - a],
                ) by {
                    assert(token@[j - a] == s[j]);
                }
                assert((forall|j: int| 0 <= j < token@.len() ==> is_digit(#[trigger] token@[j]))
                    == (forall|j: int| a <= j < b ==> is_digit(s[j]))) by {
                    if forall|j: int| 0 <= j < token@.len() ==> is_digit(#[trigger] token@[j]) {
                        assert forall|j: int| a <= j < b implies is_digit(s[j]) by {
                            assert(is_digit(token@[j - a]));
                        }
                    }
                    if forall|j: int| a <= j < b ==> is_digit(s[j]) {
                        assert forall|j: int|
                            0 <= j < token@.len() implies is_digit(#[trigger] token@[j]) by {
                            assert(token@[j] == s[a + j]);
                            assert(is_digit(s[a + j]));
                        }
                    }
                }
            }
            match parsed {
                Some(v) => {
                    proof {
                        assert(children_from(s, a as int) =~= seq![v] + children_from(
                            s,
                            b as int,
                        ));
                        assert(r@ + children_from(s, a as int) =~= r@.push(v) + children_from(
                            s,
                            b as int,
                        ));
                    }
                    r.push(v);
                },
                None => {
                    proof {
                        assert(children_from(s, a as int) =~= children_from(s, b as int));
                    }
                },
            }
            i = b;
            if i < len {
                proof {
                    assert(is_space(s[i as int]));
                    assert(children_from(s, i as int) == children_from(s, i + 1 as int));
                }
                i = i + 1;
            }
        }
    }
    proof {
        assert(children_from(s, len as int) =~= Seq::<u32>::empty());
        assert(r@ + Seq::<u32>::empty() =~= r@);
    }
    r
}

/// The resolved executable path from an `exe` link target: its first
/// whitespace-separated token, or nothing when the target is all blank.
pub fn cmdline(target: &str) -> (r: String)
    ensures
        ({
            let s = target@;
            if exists|j: int| 0 <= j < s.len() && !is_space(s[j]) {
                exists|a: int, b: int|
                    #[trigger] is_token(s, a, b) && (forall|j: int| 0 <= j < a ==> is_space(s[j]))
                        && r@ == s.subrange(a, b)
            } else {
                r@.len() == 0
            }
        }),
{
    let len = target.unicode_len();
    let mut a: usize = 0;
    while a < len && space_at(target, a)
        invariant
            a <= len,
            len == target@.len(),
            forall|j: int| 0 <= j < a ==> is_space(target@[j]),
        decreases len - a,
    {
        a = a + 1;
    }
    if a == len {
        proof {
            assert(forall|j: int| 0 <= j < target@.len() ==> is_space(target@[j]));
        }
        return String::new();
    }
    let mut b = a;
    while b < len && !space_at(target, b)
        invariant
            a <= b <= len,
            len == target@.len(),
            forall|k: int| a <= k < b ==> !is_space(target@[k]),
        decreases len - b,
    {
        b = b + 1;
    }
    proof {
        assert(is_token(target@, a as int, b as int));
        assert(!is_space(target@[a as int]));
    }
    target.substring_char(a, b).to_owned()
}

} // verus!
