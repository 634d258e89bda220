use vstd::prelude::*;

use vstd::string::StrSliceExecFns;

use crate::feed::FeedType;

verus! {

/// A decimal digit ('0' through '9').
pub open spec fn is_digit(c: char) -> bool {
    48 <= c as int <= 57
}

/// Numeric value of a decimal digit.
pub open spec fn digit_val(c: char) -> int {
    c as int - 48
}

/// Value of a digit string read in base ten.
pub open spec fn dec_value(s: Seq<char>) -> int
    decreases s.len(),
{
    if s.len() == 0 {
        0
    } else {
        dec_value(s.drop_last()) * 10 + digit_val(s.last())
    }
}

/// Powers of ten, for bounding decimal values by their digit count.
pub open spec fn pow10(n: int) -> int
    decreases n,
{
    if n <= 0 {
        1
    } else {
        10 * pow10(n - 1)
    }
}

/// A digit string of length n has a value below ten to the n.
proof fn lemma_dec_value_bounds(s: Seq<char>)
    requires
        forall|i: int| 0 <= i < s.len() ==> is_digit(#[trigger] s[i]),
    ensures
        0 <= dec_value(s) < pow10(s.len() as int),
    decreases s.len(),
{
    if s.len() > 0 {
        let p = s.drop_last();
        assert forall|i: int| 0 <= i < p.len() implies is_digit(#[trigger] p[i]) by {
            assert(p[i] == s[i]);
        }
        lemma_dec_value_bounds(p);
        assert(is_digit(s.last()));
    }
}

/// A canonical decimal number: at most `max_len` digits, no leading zero
/// unless the number is exactly "0", value at most `max`.
pub open spec fn canonical_decimal(s: Seq<char>, max_len: int, max: int) -> bool {
    &&& 1 <= s.len() <= max_len
    &&& (forall|i: int| 0 <= i < s.len() ==> is_digit(#[trigger] s[i]))
    &&& (s.len() > 1 ==> s[0] != '0')
    &&& dec_value(s) <= max
}

/// Index of the first occurrence of `c`, or the length when none occurs.
pub open spec fn first_index(s: Seq<char>, c: char) -> int
    decreases s.len(),
{
    if s.len() == 0 {
        0
    } else if s[0] == c {
        0
    } else {
        1 + first_index(s.drop_first(), c)
    }
}

/// `n` canonical octets joined by '.'.
pub open spec fn valid_octets(s: Seq<char>, n: int) -> bool
    decreases n,
{
    if n <= 1 {
        canonical_decimal(s, 3, 255)
    } else {
        let cut = first_index(s, '.');
        &&& cut < s.len()
        &&& canonical_decimal(s.take(cut), 3, 255)
        &&& valid_octets(s.skip(cut + 1), n - 1)
    }
}

/// The canonical IPv4 network literal: a dotted quad of canonical octets,
/// optionally followed by '/' and a canonical prefix length of at most 32.
pub open spec fn valid_ipv4_network(s: Seq<char>) -> bool {
    let cut = first_index(s, '/');
    &&& valid_octets(s.take(cut), 4)
    &&& (cut < s.len() ==> canonical_decimal(s.skip(cut + 1), 2, 32))
}

/// A hexadecimal digit ('0'-'9', 'a'-'f', 'A'-'F').
pub open spec fn is_hex_digit(c: char) -> bool {
    is_digit(c) || (97 <= c as int <= 102) || (65 <= c as int <= 70)
}

/// One IPv6 group: one to four hexadecimal digits.
pub open spec fn valid_group(s: Seq<char>) -> bool {
    &&& 1 <= s.len() <= 4
    &&& (forall|i: int| 0 <= i < s.len() ==> is_hex_digit(#[trigger] s[i]))
}

/// Index of the first "::", or the length when none occurs.
pub open spec fn first_double_colon(s: Seq<char>) -> int
    decreases s.len(),
{
    if s.len() < 2 {
        s.len() as int
    } else if s[0] == ':' && s[1] == ':' {
        0
    } else {
        1 + first_double_colon(s.drop_first())
    }
}

/// How many IPv6 groups a ':'-joined run of plain groups holds, or `None`
/// when it is malformed.
pub open spec fn groups_in(s: Seq<char>) -> Option<int>
    decreases s.len(),
{
    // The range test, rather than a bare `cut == s.len()`, keeps the
    // bound on `cut` visible for the termination check of the recursion.
    let cut = first_index(s, ':');
    if !(0 <= cut < s.len()) {
        if valid_group(s) {
            Some(1)
        } else {
            None
        }
    } else {
        if valid_group(s.take(cut)) {
            match groups_in(s.skip(cut + 1)) {
                Some(n) => Some(n + 1),
                None => None,
            }
        } else {
            None
        }
    }
}

/// Like `groups_in`, but the final run may be an embedded IPv4 dotted
/// quad, which stands for two groups.
pub open spec fn tail_groups_in(s: Seq<char>) -> Option<int>
    decreases s.len(),
{
    // The range test, rather than a bare `cut == s.len()`, keeps the
    // bound on `cut` visible for the termination check of the recursion.
    let cut = first_index(s, ':');
    if !(0 <= cut < s.len()) {
        if valid_group(s) {
            Some(1)
        } else if valid_octets(s, 4) {
            Some(2)
        } else {
            None
        }
    } else {
        if valid_group(s.take(cut)) {
            match tail_groups_in(s.skip(cut + 1)) {
                Some(n) => Some(n + 1),
                None => None,
            }
        } else {
            None
        }
    }
}

/// An IPv6 address literal: eight groups joined by ':', with at most one
/// "::" standing for one or more zero groups, and optionally an embedded
/// IPv4 dotted quad as the last two groups.
pub open spec fn valid_ipv6_addr(s: Seq<char>) -> bool {
    let dc = first_double_colon(s);
    if dc == s.len() {
        tail_groups_in(s) == Some(8int)
    } else {
        let left = s.take(dc);
        let right = s.skip(dc + 2);
        &&& (left.len() == 0 || groups_in(left) is Some)
        &&& (right.len() == 0 || tail_groups_in(right) is Some)
        &&& {
            let lg: int = if left.len() == 0 {
                0
            } else {
                groups_in(left)->Some_0
            };
            let rg: int = if right.len() == 0 {
                0
            } else {
                tail_groups_in(right)->Some_0
            };
            lg + rg <= 7
        }
    }
}

/// The canonical IPv6 network literal: an IPv6 address, optionally
/// followed by '/' and a canonical prefix length of at most 128.
pub open spec fn valid_ipv6_network(s: Seq<char>) -> bool {
    let cut = first_index(s, '/');
    &&& valid_ipv6_addr(s.take(cut))
    &&& (cut < s.len() ==> canonical_decimal(s.skip(cut + 1), 3, 128))
}

/// A value that can stand as one line of a rendered body: nonempty and
/// free of the line terminator.
pub open spec fn renderable_value(s: Seq<char>) -> bool {
    s.len() > 0 && (forall|i: int| 0 <= i < s.len() ==> #[trigger] s[i] != '\n')
}

/// The well-formedness a value must meet under a feed kind: IP entries
/// hold a canonical IPv4 or IPv6 network literal; URL and domain entries
/// hold any nonempty single-line text. Decimal numbers in network
/// literals are canonical — no zero padding — so that equal networks
/// always render as equal lines and hash to equal digests.
pub open spec fn valid_value(kind: FeedType, s: Seq<char>) -> bool {
    match kind {
        FeedType::IP => valid_ipv4_network(s) || valid_ipv6_network(s),
        FeedType::URL => renderable_value(s),
        FeedType::Domain => renderable_value(s),
    }
}

/// Index of the first occurrence of `c` in `[from, to)`, or `to` when none
/// occurs there.
fn find_in(s: &str, from: usize, to: usize, c: char) -> (r: usize)
    requires
        from <= to <= s@.len(),
    ensures
        r as int == from + first_index(s@.subrange(from as int, to as int), c),
        from <= r <= to,
        r < to ==> s@[r as int] == c,
        forall|k: int| from <= k < r ==> s@[k] != c,
{
    let ghost sub = s@.subrange(from as int, to as int);
    let mut i = from;
    proof {
        assert(sub.skip(0) =~= sub);
    }
    while i < to
        invariant
            from <= i <= to <= s@.len(),
            sub == s@.subrange(from as int, to as int),
            forall|k: int| from <= k < i ==> s@[k] != c,
            first_index(sub, c) == (i - from) + first_index(sub.skip(i - from), c),
        decreases to - i,
    {
        proof {
            assert(sub.skip(i - from)[0] == sub[i - from]);
            assert(sub[i - from] == s@[i as int]);
        }
        let ch = s.get_char(i);
        if ch == c {
            return i;
        }
        proof {
            assert(sub.skip(i - from).drop_first() =~= sub.skip(i - from + 1));
        }
        i = i + 1;
    }
    proof {
        assert(sub.skip(to - from).len() == 0);
    }
    i
}

/// Whether the characters in `[from, to)` form a canonical decimal of at
/// most `max_len` digits and value at most `max`.
fn check_decimal(s: &str, from: usize, to: usize, max_len: usize, max: u64) -> (r: bool)
    requires
        from <= to <= s@.len(),
        1 <= max_len <= 9,
    ensures
        r == canonical_decimal(s@.subrange(from as int, to as int), max_len as int, max as int),
{
    let ghost sub = s@.subrange(from as int, to as int);
    let len = to - from;
    if len < 1 || len > max_len {
        return false;
    }
    let mut i = from;
    let mut val: u64 = 0;
    while i < to
        invariant
            from <= i <= to <= s@.len(),
            to - from <= max_len <= 9,
            sub == s@.subrange(from as int, to as int),
            forall|k: int| 0 <= k < i - from ==> is_digit(#[trigger] sub[k]),
            val as int == dec_value(sub.take(i - from)),
        decreases to - i,
    {
        proof {
            assert(sub[i - from] == s@[i as int]);
        }
        let ch = s.get_char(i);
        let d = ch as u64;
        if d < 48 || d > 57 {
            proof {
                assert(!is_digit(sub[i - from]));
            }
            return false;
        }
        proof {
            assert forall|k: int| 0 <= k < i - from + 1 implies is_digit(#[trigger] sub[k]) by {}
            let p = sub.take(i - from);
            assert forall|k: int| 0 <= k < p.len() implies is_digit(#[trigger] p[k]) by {
                assert(p[k] == sub[k]);
            }
            lemma_dec_value_bounds(p);
            reveal_with_fuel(pow10, 10);
            assert(dec_value(p) < pow10(8));
            assert(sub.take(i - from + 1).drop_last() =~= p);
            assert(sub.take(i - from + 1).last() == sub[i - from]);
        }
        val = val * 10 + (d - 48);
        i = i + 1;
    }
    proof {
        assert(sub.take(to - from) =~= sub);
    }
    if len > 1 {
        proof {
            assert(sub[0] == s@[from as int]);
        }
        let first = s.get_char(from);
        if first == '0' {
            return false;
        }
    }
    val <= max
}

/// Whether the characters in `[from, to)` form `n` canonical octets
/// joined by '.'.
fn check_octets(s: &str, from: usize, to: usize, n: u32) -> (r: bool)
    requires
        from <= to <= s@.len(),
        1 <= n,
    ensures
        r == valid_octets(s@.subrange(from as int, to as int), n as int),
    decreases n,
{
    let ghost sub = s@.subrange(from as int, to as int);
    if n == 1 {
        return check_decimal(s, from, to, 3, 255);
    }
    let cut = find_in(s, from, to, '.');
    if cut >= to {
        return false;
    }
    proof {
        assert(sub.take(cut - from) =~= s@.subrange(from as int, cut as int));
    }
    if !check_decimal(s, from, cut, 3, 255) {
        return false;
    }
    proof {
        assert(sub.skip(cut - from + 1) =~= s@.subrange(cut as int + 1, to as int));
    }
    check_octets(s, cut + 1, to, n - 1)
}

/// Whether the whole value is a canonical IPv4 network literal.
fn check_ipv4_network(s: &str) -> (r: bool)
    ensures
        r == valid_ipv4_network(s@),
{
    let n = s.unicode_len();
    let cut = find_in(s, 0, n, '/');
    proof {
        assert(s@.subrange(0, n as int) =~= s@);
        assert(s@.take(cut as int) =~= s@.subrange(0, cut as int));
    }
    if !check_octets(s, 0, cut, 4) {
        return false;
    }
    if cut < n {
        proof {
            assert(s@.skip(cut as int + 1) =~= s@.subrange(cut as int + 1, n as int));
        }
        check_decimal(s, cut + 1, n, 2, 32)
    } else {
        true
    }
}

/// Whether the characters in `[from, to)` form one IPv6 group.
fn check_group(s: &str, from: usize, to: usize) -> (r: bool)
    requires
        from <= to <= s@.len(),
    ensures
        r == valid_group(s@.subrange(from as int, to as int)),
{
    let ghost sub = s@.subrange(from as int, to as int);
    let len = to - from;
    if len < 1 || len > 4 {
        return false;
    }
    let mut i = from;
    while i < to
        invariant
            from <= i <= to <= s@.len(),
            sub == s@.subrange(from as int, to as int),
            forall|k: int| 0 <= k < i - from ==> is_hex_digit(#[trigger] sub[k]),
        decreases to - i,
    {
        proof {
            assert(sub[i - from] == s@[i as int]);
        }
        let ch = s.get_char(i);
        let d = ch as u32;
        if !((48 <= d && d <= 57) || (97 <= d && d <= 102) || (65 <= d && d <= 70)) {
            proof {
                assert(!is_hex_digit(sub[i - from]));
            }
            return false;
        }
        i = i + 1;
    }
    true
}

/// Index of the first "::" in `[from, to)`, or `to` when none occurs
/// there.
fn find_double_colon(s: &str, from: usize, to: usize) -> (r: usize)
    requires
        from <= to <= s@.len(),
    ensures
        r as int == from + first_double_colon(s@.subrange(from as int, to as int)),
        from <= r <= to,
        r < to ==> r + 1 < to && s@[r as int] == ':' && s@[r as int + 1] == ':',
{
    let ghost sub = s@.subrange(from as int, to as int);
    if to - from < 2 {
        return to;
    }
    let mut i = from;
    proof {
        assert(sub.skip(0) =~= sub);
    }
    while i + 1 < to
        invariant
            from <= i < to <= s@.len(),
            to - from >= 2,
            sub == s@.subrange(from as int, to as int),
            first_double_colon(sub) == (i - from) + first_double_colon(sub.skip(i - from)),
        decreases to - i,
    {
        proof {
            assert(sub.skip(i - from)[0] == sub[i - from]);
            assert(sub.skip(i - from)[1] == sub[i - from + 1]);
            assert(sub[i - from] == s@[i as int]);
            assert(sub[i - from + 1] == s@[i as int + 1]);
        }
        let a = s.get_char(i);
        let b = s.get_char(i + 1);
        if a == ':' && b == ':' {
            return i;
        }
        proof {
            assert(sub.skip(i - from).drop_first() =~= sub.skip(i - from + 1));
        }
        i = i + 1;
    }
    proof {
        assert(sub.skip(i - from).len() == 1);
    }
    to
}

/// Whether the characters in `[from, to)` are a ':'-joined run of plain
/// groups; on success also how many groups it holds.
fn check_groups(s: &str, from: usize, to: usize) -> (r: (bool, usize))
    requires
        from <= to <= s@.len(),
    ensures
        r.0 ==> groups_in(s@.subrange(from as int, to as int)) == Some(r.1 as int) && 1 <= r.1
            as int <= to - from,
        !r.0 ==> groups_in(s@.subrange(from as int, to as int)) is None,
    decreases to - from,
{
    let ghost sub = s@.subrange(from as int, to as int);
    let cut = find_in(s, from, to, ':');
    if cut >= to {
        let ok = check_group(s, from, to);
        if ok {
            (true, 1)
        } else {
            (false, 0)
        }
    } else {
        proof {
            assert(sub.take(cut - from) =~= s@.subrange(from as int, cut as int));
        }
        if !check_group(s, from, cut) {
            return (false, 0);
        }
        proof {
            assert(sub.skip(cut - from + 1) =~= s@.subrange(cut as int + 1, to as int));
        }
        let (ok, n) = check_groups(s, cut + 1, to);
        if ok {
            (true, n + 1)
        } else {
            (false, 0)
        }
    }
}

/// Like `check_groups`, but the final run may be an embedded IPv4 dotted
/// quad, which stands for two groups.
fn check_tail_groups(s: &str, from: usize, to: usize) -> (r: (bool, usize))
    requires
        from <= to <= s@.len(),
    ensures
        r.0 ==> tail_groups_in(s@.subrange(from as int, to as int)) == Some(r.1 as int) && 1 <= r.1
            as int <= to - from + 1,
        !r.0 ==> tail_groups_in(s@.subrange(from as int, to as int)) is None,
    decreases to - from,
{
    let ghost sub = s@.subrange(from as int, to as int);
    let cut = find_in(s, from, to, ':');
    if cut >= to {
        if check_group(s, from, to) {
            (true, 1)
        } else if check_octets(s, from, to, 4) {
            (true, 2)
        } else {
            (false, 0)
        }
    } else {
        proof {
            assert(sub.take(cut - from) =~= s@.subrange(from as int, cut as int));
        }
        if !check_group(s, from, cut) {
            return (false, 0);
        }
        proof {
            assert(sub.skip(cut - from + 1) =~= s@.subrange(cut as int + 1, to as int));
        }
        let (ok, n) = check_tail_groups(s, cut + 1, to);
        if ok {
            (true, n + 1)
        } else {
            (false, 0)
        }
    }
}

/// Whether the characters in `[from, to)` form an IPv6 address literal.
fn check_ipv6_addr(s: &str, from: usize, to: usize) -> (r: bool)
    requires
        from <= to <= s@.len(),
    ensures
        r == valid_ipv6_addr(s@.subrange(from as int, to as int)),
{
    let ghost sub = s@.subrange(from as int, to as int);
    let dc = find_double_colon(s, from, to);
    if dc >= to {
        let (ok, n) = check_tail_groups(s, from, to);
        ok && n == 8
    } else {
        proof {
            assert(sub.take(dc - from) =~= s@.subrange(from as int, dc as int));
            assert(sub.skip(dc - from + 2) =~= s@.subrange(dc as int + 2, to as int));
        }
        let lok: bool;
        let ln: usize;
        if dc == from {
            lok = true;
            ln = 0;
        } else {
            let (a, b) = check_groups(s, from, dc);
            lok = a;
            ln = b;
        }
        if !lok {
            return false;
        }
        let rstart = dc + 2;
        let rok: bool;
        let rn: usize;
        if rstart == to {
            rok = true;
            rn = 0;
        } else {
            let (a, b) = check_tail_groups(s, rstart, to);
            rok = a;
            rn = b;
        }
        if !rok {
            return false;
        }
        ln <= 7 && rn <= 7 - ln
    }
}

/// Whether the whole value is a canonical IPv6 network literal.
fn check_ipv6_network(s: &str) -> (r: bool)
    ensures
        r == valid_ipv6_network(s@),
{
    let n = s.unicode_len();
    let cut = find_in(s, 0, n, '/');
    proof {
        assert(s@.subrange(0, n as int) =~= s@);
        assert(s@.take(cut as int) =~= s@.subrange(0, cut as int));
    }
    if !check_ipv6_addr(s, 0, cut) {
        return false;
    }
    if cut < n {
        proof {
            assert(s@.skip(cut as int + 1) =~= s@.subrange(cut as int + 1, n as int));
        }
        check_decimal(s, cut + 1, n, 3, 128)
    } else {
        true
    }
}

/// Whether the value is nonempty and single-line.
fn check_renderable(s: &str) -> (r: bool)
    ensures
        r == renderable_value(s@),
{
    let n = s.unicode_len();
    if n == 0 {
        return false;
    }
    let mut i: usize = 0;
    while i < n
        invariant
            i <= n,
            n == s@.len(),
            forall|k: int| 0 <= k < i ==> #[trigger] s@[k] != '\n',
        decreases n - i,
    {
        let ch = s.get_char(i);
        if ch == '\n' {
            return false;
        }
        i = i + 1;
    }
    true
}

/// Whether `value` is well formed for entries of `kind`.
pub fn check_value(kind: FeedType, value: &str) -> (r: bool)
    ensures
        r == valid_value(kind, value@),
{
    match kind {
        FeedType::IP => {
            if check_ipv4_network(value) {
                true
            } else {
                check_ipv6_network(value)
            }
        },
        FeedType::URL => check_renderable(value),
        FeedType::Domain => check_renderable(value),
    }
}

} // verus!
