//! Character sequences: searching, splitting, trimming and joining.
//!
//! Every contract is stated over `Seq<char>`, the view of `str` and `String`.
use vstd::prelude::*;
use vstd::string::*;

verus! {

/// `String::push` appends one character to the end of the string.
pub assume_specification[ std::string::String::push ](s: &mut std::string::String, ch: char)
    ensures
        final(s)@ == old(s)@.push(ch),
;

/// The position of the first `c` in `s`, or `s.len()` when `s` holds none.
pub open spec fn find_char(s: Seq<char>, c: char) -> int
    decreases s.len(),
{
    if s.len() == 0 || s[0] == c {
        0
    } else {
        1 + find_char(s.drop_first(), c)
    }
}

/// `find_char` is the one position before which no `c` stands and which is
/// either the end of `s` or holds `c`.
pub proof fn lemma_find_char(s: Seq<char>, c: char, i: int)
    requires
        0 <= i <= s.len(),
        forall|j: int| 0 <= j < i ==> s[j] != c,
        i < s.len() ==> s[i] == c,
    ensures
        find_char(s, c) == i,
    decreases s.len(),
{
    if s.len() == 0 || s[0] == c {
    } else {
        let t = s.drop_first();
        assert forall|j: int| 0 <= j < i - 1 implies t[j] != c by {
            assert(t[j] == s[j + 1]);
        }
        lemma_find_char(t, c, i - 1);
    }
}

/// What `find_char` gives is in range and is the first occurrence.
pub proof fn lemma_find_char_bounds(s: Seq<char>, c: char)
    ensures
        0 <= find_char(s, c) <= s.len(),
        forall|j: int| 0 <= j < find_char(s, c) ==> s[j] != c,
        find_char(s, c) < s.len() ==> s[find_char(s, c)] == c,
    decreases s.len(),
{
    if s.len() == 0 || s[0] == c {
    } else {
        let t = s.drop_first();
        lemma_find_char_bounds(t, c);
        assert forall|j: int| 0 <= j < find_char(s, c) implies s[j] != c by {
            if j > 0 {
                assert(t[j - 1] == s[j]);
            }
        }
    }
}

/// Whether `s` holds `c` anywhere.
pub open spec fn has_char(s: Seq<char>, c: char) -> bool {
    find_char(s, c) < s.len()
}

/// The pieces of `s` between occurrences of `sep`. There is always at least
/// one piece; two separators in a row, or one at either end, give an empty
/// piece.
pub open spec fn split(s: Seq<char>, sep: char) -> Seq<Seq<char>>
    decreases s.len(),
{
    let i = find_char(s, sep);
    if 0 <= i < s.len() {
        seq![s.take(i)] + split(s.skip(i + 1), sep)
    } else {
        seq![s]
    }
}

/// The characters that `char::is_whitespace` accepts: the code points with
/// the Unicode property `White_Space`.
pub open spec fn is_whitespace(c: char) -> bool {
    let u = c as u32;
    ||| 0x09 <= u <= 0x0D
    ||| u == 0x20
    ||| u == 0x85
    ||| u == 0xA0
    ||| u == 0x1680
    ||| 0x2000 <= u <= 0x200A
    ||| u == 0x2028
    ||| u == 0x2029
    ||| u == 0x202F
    ||| u == 0x205F
    ||| u == 0x3000
}

/// How many characters at the start of `s` are whitespace.
pub open spec fn leading_whitespace(s: Seq<char>) -> int
    decreases s.len(),
{
    if s.len() > 0 && is_whitespace(s[0]) {
        1 + leading_whitespace(s.drop_first())
    } else {
        0
    }
}

/// How many characters at the end of `s` are whitespace.
pub open spec fn trailing_whitespace(s: Seq<char>) -> int
    decreases s.len(),
{
    if s.len() > 0 && is_whitespace(s.last()) {
        1 + trailing_whitespace(s.drop_last())
    } else {
        0
    }
}

/// `s` without its leading and trailing whitespace.
pub open spec fn trim(s: Seq<char>) -> Seq<char> {
    let a = leading_whitespace(s);
    let rest = s.skip(a);
    rest.take(rest.len() - trailing_whitespace(rest))
}

/// `leading_whitespace` is the length of the longest run of whitespace at
/// the start.
pub proof fn lemma_leading_whitespace(s: Seq<char>, n: int)
    requires
        0 <= n <= s.len(),
        forall|j: int| 0 <= j < n ==> is_whitespace(s[j]),
        n < s.len() ==> !is_whitespace(s[n]),
    ensures
        leading_whitespace(s) == n,
    decreases s.len(),
{
    if s.len() > 0 && is_whitespace(s[0]) {
        let t = s.drop_first();
        assert forall|j: int| 0 <= j < n - 1 implies is_whitespace(t[j]) by {
            assert(t[j] == s[j + 1]);
        }
        lemma_leading_whitespace(t, n - 1);
    }
}

/// `trailing_whitespace` is the length of the longest run of whitespace at
/// the end.
pub proof fn lemma_trailing_whitespace(s: Seq<char>, n: int)
    requires
        0 <= n <= s.len(),
        forall|j: int| s.len() - n <= j < s.len() ==> is_whitespace(s[j]),
        n < s.len() ==> !is_whitespace(s[s.len() - n - 1]),
    ensures
        trailing_whitespace(s) == n,
    decreases s.len(),
{
    if s.len() > 0 && is_whitespace(s.last()) {
        let t = s.drop_last();
        assert forall|j: int| t.len() - (n - 1) <= j < t.len() implies is_whitespace(t[j]) by {
            assert(t[j] == s[j]);
        }
        lemma_trailing_whitespace(t, n - 1);
    }
}

/// The first line of `s` as `str::lines` gives it: what stands before the
/// first line feed, without the carriage return that may precede that line
/// feed. An empty text has no line.
pub open spec fn first_line(s: Seq<char>) -> Option<Seq<char>> {
    if s.len() == 0 {
        None
    } else {
        let i = find_char(s, '\n');
        let line = s.take(i);
        if i < s.len() && line.len() > 0 && line.last() == '\r' {
            Some(line.drop_last())
        } else {
            Some(line)
        }
    }
}

/// The characters of `s`, in order.
pub fn to_chars(s: &str) -> (v: Vec<char>)
    ensures
        v@ == s@,
{
    let mut v: Vec<char> = Vec::new();
    for c in it: s.chars()
        invariant
            v@ == it.seq().take(it.index() as int),
            it.seq() == s@,
    {
        v.push(c);
    }
    v
}

/// The string made of `v[lo..hi]`.
pub fn from_chars(v: &Vec<char>, lo: usize, hi: usize) -> (s: String)
    requires
        lo <= hi <= v.len(),
    ensures
        s@ == v@.subrange(lo as int, hi as int),
{
    let mut s = String::new();
    let mut i: usize = lo;
    while i < hi
        invariant
            lo <= i <= hi <= v.len(),
            s@ == v@.subrange(lo as int, i as int),
        decreases hi - i,
    {
        s.push(v[i]);
        i += 1;
    }
    s
}

/// Whether `c` is whitespace.
pub fn char_is_whitespace(c: char) -> (b: bool)
    ensures
        b == is_whitespace(c),
{
    let u: u32 = c as u32;
    (0x09 <= u && u <= 0x0D) || u == 0x20 || u == 0x85 || u == 0xA0 || u == 0x1680 || (0x2000 <= u
        && u <= 0x200A) || u == 0x2028 || u == 0x2029 || u == 0x202F || u == 0x205F || u == 0x3000
}

/// The position of the first `c` in `v[lo..hi]`, counted from the start of
/// `v`, or `hi` when there is none.
pub fn find_in(v: &Vec<char>, lo: usize, hi: usize, c: char) -> (i: usize)
    requires
        lo <= hi <= v.len(),
    ensures
        lo <= i <= hi,
        i - lo == find_char(v@.subrange(lo as int, hi as int), c),
{
    let mut i: usize = lo;
    while i < hi && v[i] != c
        invariant
            lo <= i <= hi <= v.len(),
            forall|j: int| lo <= j < i ==> v@[j] != c,
        decreases hi - i,
    {
        i += 1;
    }
    proof {
        lemma_find_char(v@.subrange(lo as int, hi as int), c, i - lo);
    }
    i
}

/// The bounds of `v[lo..hi]` without its leading and trailing whitespace.
pub fn trim_in(v: &Vec<char>, lo: usize, hi: usize) -> (r: (usize, usize))
    requires
        lo <= hi <= v.len(),
    ensures
        lo <= r.0 <= r.1 <= hi,
        v@.subrange(r.0 as int, r.1 as int) == trim(v@.subrange(lo as int, hi as int)),
{
    let mut a: usize = lo;
    while a < hi && char_is_whitespace(v[a])
        invariant
            lo <= a <= hi <= v.len(),
            forall|j: int| lo <= j < a ==> is_whitespace(v@[j]),
        decreases hi - a,
    {
        a += 1;
    }
    let mut b: usize = hi;
    while a < b && char_is_whitespace(v[b - 1])
        invariant
            lo <= a <= b <= hi <= v.len(),
            forall|j: int| b <= j < hi ==> is_whitespace(v@[j]),
        decreases b - a,
    {
        b -= 1;
    }
    proof {
        let s = v@.subrange(lo as int, hi as int);
        lemma_leading_whitespace(s, a - lo);
        let rest = s.skip(a - lo);
        assert(rest == v@.subrange(a as int, hi as int));
        lemma_trailing_whitespace(rest, hi - b);
        assert(rest.take(rest.len() - (hi - b)) == v@.subrange(a as int, b as int));
    }
    (a, b)
}

/// The pieces of `v[lo..hi]` between occurrences of `sep`, each as the pair
/// of its bounds in `v`.
pub fn split_in(v: &Vec<char>, lo: usize, hi: usize, sep: char) -> (parts: Vec<(usize, usize)>)
    requires
        lo <= hi <= v.len(),
    ensures
        parts@.len() == split(v@.subrange(lo as int, hi as int), sep).len(),
        forall|k: int|
            0 <= k < parts@.len() ==> lo <= (#[trigger] parts@[k]).0 <= parts@[k].1 <= hi,
        forall|k: int|
            0 <= k < parts@.len() ==> v@.subrange(
                (#[trigger] parts@[k]).0 as int,
                parts@[k].1 as int,
            ) == split(v@.subrange(lo as int, hi as int), sep)[k],
{
    let ghost whole = split(v@.subrange(lo as int, hi as int), sep);
    let mut parts: Vec<(usize, usize)> = Vec::new();
    let mut start: usize = lo;
    loop
        invariant_except_break
            whole == Seq::new(
                parts@.len(),
                |k: int| v@.subrange(parts@[k].0 as int, parts@[k].1 as int),
            ) + split(v@.subrange(start as int, hi as int), sep),
        invariant
            lo <= start <= hi <= v.len(),
            whole == split(v@.subrange(lo as int, hi as int), sep),
            forall|k: int|
                0 <= k < parts@.len() ==> lo <= (#[trigger] parts@[k]).0 <= parts@[k].1 <= hi,
        ensures
            parts@.len() == whole.len(),
            forall|k: int|
                0 <= k < parts@.len() ==> lo <= (#[trigger] parts@[k]).0 <= parts@[k].1 <= hi,
            forall|k: int|
                0 <= k < parts@.len() ==> v@.subrange(
                    (#[trigger] parts@[k]).0 as int,
                    parts@[k].1 as int,
                ) == whole[k],
        decreases hi - start,
    {
        let i = find_in(v, start, hi, sep);
        let ghost rest = v@.subrange(start as int, hi as int);
        let ghost before = Seq::new(
            parts@.len(),
            |k: int| v@.subrange(parts@[k].0 as int, parts@[k].1 as int),
        );
        let ghost old_parts = parts@;
        parts.push((start, i));
        let ghost after = Seq::new(
            parts@.len(),
            |k: int| v@.subrange(parts@[k].0 as int, parts@[k].1 as int),
        );
        proof {
            assert(rest.take(i - start) == v@.subrange(start as int, i as int));
            assert(after == before.push(v@.subrange(start as int, i as int)));
        }
        if i < hi {
            proof {
                assert(rest.skip(i - start + 1) == v@.subrange(i + 1, hi as int));
                assert(whole == after + split(v@.subrange(i + 1, hi as int), sep));
            }
            start = i + 1;
        } else {
            proof {
                assert(rest.take(i - start) == rest);
                assert(split(rest, sep) == seq![rest]);
                assert(whole == after);
                assert forall|k: int| 0 <= k < parts@.len() implies v@.subrange(
                    (#[trigger] parts@[k]).0 as int,
                    parts@[k].1 as int,
                ) == whole[k] by {
                    assert(after[k] == whole[k]);
                }
            }
            break ;
        }
    }
    parts
}

/// The bounds in `v` of its first line, if it has one.
pub fn first_line_in(v: &Vec<char>) -> (r: Option<(usize, usize)>)
    ensures
        r is Some == first_line(v@) is Some,
        r matches Some(b) ==> b.0 == 0 && b.1 <= v.len() && v@.subrange(0, b.1 as int)
            == first_line(v@)->0,
{
    if v.len() == 0 {
        return None;
    }
    let i = find_in(v, 0, v.len(), '\n');
    proof {
        assert(v@.subrange(0, v.len() as int) == v@);
        assert(v@.take(i as int) == v@.subrange(0, i as int));
    }
    if i < v.len() && i > 0 && v[i - 1] == '\r' {
        proof {
            assert(v@.take(i as int).drop_last() == v@.subrange(0, i - 1));
        }
        Some((0, i - 1))
    } else {
        Some((0, i))
    }
}

/// The pieces of `parts` put together with one `sep` between neighbours.
pub open spec fn join(parts: Seq<Seq<char>>, sep: char) -> Seq<char>
    decreases parts.len(),
{
    if parts.len() == 0 {
        Seq::empty()
    } else if parts.len() == 1 {
        parts[0]
    } else {
        parts[0] + seq![sep] + join(parts.drop_first(), sep)
    }
}

/// A text without the separator is its own single piece.
pub proof fn lemma_split_whole(s: Seq<char>, sep: char)
    requires
        !has_char(s, sep),
    ensures
        split(s, sep) == seq![s],
{
    lemma_find_char_bounds(s, sep);
}

/// Splitting `head sep rest`, where `head` holds no separator, gives `head`
/// and then the pieces of `rest`.
pub proof fn lemma_split_cons(head: Seq<char>, sep: char, rest: Seq<char>)
    requires
        !has_char(head, sep),
    ensures
        split(head + seq![sep] + rest, sep) == seq![head] + split(rest, sep),
{
    let s = head + seq![sep] + rest;
    lemma_find_char_bounds(head, sep);
    assert forall|j: int| 0 <= j < head.len() implies s[j] != sep by {
        assert(s[j] == head[j]);
    }
    assert(s[head.len() as int] == sep);
    lemma_find_char(s, sep, head.len() as int);
    assert(s.take(head.len() as int) == head);
    assert(s.skip(head.len() as int + 1) == rest);
}

/// No piece of a split holds the separator, and there is at least one piece.
pub proof fn lemma_split_pieces(s: Seq<char>, sep: char)
    ensures
        split(s, sep).len() >= 1,
        forall|k: int| 0 <= k < split(s, sep).len() ==> !has_char(#[trigger] split(s, sep)[k], sep),
    decreases s.len(),
{
    let i = find_char(s, sep);
    lemma_find_char_bounds(s, sep);
    if 0 <= i < s.len() {
        let head = s.take(i);
        let rest = s.skip(i + 1);
        lemma_split_pieces(rest, sep);
        assert forall|j: int| 0 <= j < head.len() implies head[j] != sep by {
            assert(head[j] == s[j]);
        }
        lemma_find_char(head, sep, head.len() as int);
        assert forall|k: int| 0 <= k < split(s, sep).len() implies !has_char(
            #[trigger] split(s, sep)[k],
            sep,
        ) by {
            if k > 0 {
                assert(split(s, sep)[k] == split(rest, sep)[k - 1]);
            }
        }
    } else {
    }
}

/// Joining the pieces of a split gives the text back.
pub proof fn lemma_join_split(s: Seq<char>, sep: char)
    ensures
        join(split(s, sep), sep) == s,
    decreases s.len(),
{
    let i = find_char(s, sep);
    lemma_find_char_bounds(s, sep);
    if 0 <= i < s.len() {
        let head = s.take(i);
        let rest = s.skip(i + 1);
        lemma_join_split(rest, sep);
        lemma_split_pieces(rest, sep);
        let parts = split(s, sep);
        assert(parts.drop_first() == split(rest, sep));
        assert(head + seq![sep] + rest == s);
    } else {
    }
}

/// Splitting a join of separator-free pieces gives the pieces back.
pub proof fn lemma_split_join(parts: Seq<Seq<char>>, sep: char)
    requires
        parts.len() >= 1,
        forall|k: int| 0 <= k < parts.len() ==> !has_char(#[trigger] parts[k], sep),
    ensures
        split(join(parts, sep), sep) == parts,
    decreases parts.len(),
{
    if parts.len() == 1 {
        lemma_split_whole(parts[0], sep);
        assert(seq![parts[0]] == parts);
    } else {
        let tail = parts.drop_first();
        assert forall|k: int| 0 <= k < tail.len() implies !has_char(#[trigger] tail[k], sep) by {
            assert(tail[k] == parts[k + 1]);
        }
        lemma_split_join(tail, sep);
        lemma_split_cons(parts[0], sep, join(tail, sep));
        assert(seq![parts[0]] + tail == parts);
    }
}

/// Whether two strings hold the same characters.
pub fn same_text(a: &str, b: &str) -> (r: bool)
    ensures
        r == (a@ == b@),
{
    let x = a.to_owned();
    let y = b.to_owned();
    x == y
}

/// A copy of `s`.
pub fn copy_text(s: &String) -> (r: String)
    ensures
        r@ == s@,
{
    s.clone()
}

/// The character for a digit from 0 to 9.
pub open spec fn digit(d: int) -> char {
    if d == 0 {
        '0'
    } else if d == 1 {
        '1'
    } else if d == 2 {
        '2'
    } else if d == 3 {
        '3'
    } else if d == 4 {
        '4'
    } else if d == 5 {
        '5'
    } else if d == 6 {
        '6'
    } else if d == 7 {
        '7'
    } else if d == 8 {
        '8'
    } else {
        '9'
    }
}

/// A natural number in decimal, without leading zeros.
pub open spec fn decimal_nat(n: nat) -> Seq<char>
    decreases n,
{
    if n < 10 {
        seq![digit(n as int)]
    } else {
        decimal_nat(n / 10).push(digit((n % 10) as int))
    }
}

/// An integer in decimal: a minus sign before a negative number, no sign
/// otherwise.
pub open spec fn decimal(n: int) -> Seq<char> {
    if n < 0 {
        seq!['-'] + decimal_nat((-n) as nat)
    } else {
        decimal_nat(n as nat)
    }
}

/// The character for a digit from 0 to 9.
pub fn digit_char(d: u8) -> (c: char)
    requires
        d < 10,
    ensures
        c == digit(d as int),
{
    if d == 0 {
        '0'
    } else if d == 1 {
        '1'
    } else if d == 2 {
        '2'
    } else if d == 3 {
        '3'
    } else if d == 4 {
        '4'
    } else if d == 5 {
        '5'
    } else if d == 6 {
        '6'
    } else if d == 7 {
        '7'
    } else if d == 8 {
        '8'
    } else {
        '9'
    }
}

/// Appends `n` in decimal to `out`.
fn push_decimal(out: &mut String, n: u128)
    ensures
        final(out)@ == old(out)@ + decimal_nat(n as nat),
    decreases n,
{
    if n >= 10 {
        push_decimal(out, n / 10);
    }
    out.push(digit_char((n % 10) as u8));
}

/// `n` in decimal.
pub fn decimal_u128(n: u128) -> (s: String)
    ensures
        s@ == decimal(n as int),
{
    let mut s = String::new();
    push_decimal(&mut s, n);
    s
}

/// `n` in decimal.
pub fn decimal_i64(n: i64) -> (s: String)
    ensures
        s@ == decimal(n as int),
{
    let mut s = String::new();
    if n < 0 {
        s.push('-');
        let magnitude: u128 = (-(n as i128)) as u128;
        push_decimal(&mut s, magnitude);
    } else {
        push_decimal(&mut s, n as u128);
    }
    s
}

/// Whether `s` begins with `prefix`.
pub open spec fn starts_with(s: Seq<char>, prefix: Seq<char>) -> bool {
    prefix.len() <= s.len() && s.take(prefix.len() as int) == prefix
}

/// `s` with every occurrence of `from` replaced by `to`. Occurrences are
/// found from the left and do not overlap. An empty `from` occurs before
/// every character and at the end.
pub open spec fn replaced(s: Seq<char>, from: Seq<char>, to: Seq<char>) -> Seq<char>
    decreases s.len(),
{
    if s.len() == 0 {
        if from.len() == 0 {
            to
        } else {
            s
        }
    } else if from.len() == 0 {
        to + seq![s[0]] + replaced(s.drop_first(), from, to)
    } else if starts_with(s, from) {
        to + replaced(s.skip(from.len() as int), from, to)
    } else {
        seq![s[0]] + replaced(s.drop_first(), from, to)
    }
}

/// Whether `pattern` stands in `v` at position `at`.
pub fn occurs_at(v: &Vec<char>, at: usize, pattern: &Vec<char>) -> (b: bool)
    requires
        at <= v.len(),
    ensures
        b == starts_with(v@.skip(at as int), pattern@),
{
    if pattern.len() > v.len() - at {
        return false;
    }
    let mut k: usize = 0;
    while k < pattern.len()
        invariant
            at <= v.len(),
            k <= pattern.len() <= v.len() - at,
            forall|j: int| 0 <= j < k ==> v@[at + j] == pattern@[j],
        decreases pattern.len() - k,
    {
        if v[at + k] != pattern[k] {
            proof {
                let head = v@.skip(at as int).take(pattern@.len() as int);
                assert(head[k as int] != pattern@[k as int]);
            }
            return false;
        }
        k += 1;
    }
    assert(v@.skip(at as int).take(pattern@.len() as int) =~= pattern@);
    true
}

/// `s` with every occurrence of `from` replaced by `to`.
pub fn replace(s: &str, from: &str, to: &str) -> (r: String)
    ensures
        r@ == replaced(s@, from@, to@),
{
    let v = to_chars(s);
    let pattern = to_chars(from);
    let mut r = String::new();
    let mut i: usize = 0;
    assert(v@.skip(0) == v@);
    while i < v.len()
        invariant
            i <= v.len(),
            v@ == s@,
            pattern@ == from@,
            r@ + replaced(v@.skip(i as int), from@, to@) == replaced(s@, from@, to@),
        decreases v.len() - i,
    {
        let ghost rest = v@.skip(i as int);
        if pattern.len() == 0 {
            proof {
                assert(rest.drop_first() == v@.skip(i + 1));
                assert(r@ + (to@ + seq![rest[0]] + replaced(rest.drop_first(), from@, to@)) == r@
                    + to@ + seq![rest[0]] + replaced(rest.drop_first(), from@, to@));
            }
            let ghost before = r@;
            r.append(to);
            r.push(v[i]);
            assert(r@ == before + to@ + seq![rest[0]]);
            i += 1;
        } else if occurs_at(&v, i, &pattern) {
            proof {
                assert(rest.skip(pattern@.len() as int) == v@.skip(i + pattern@.len()));
                assert(r@ + (to@ + replaced(rest.skip(from@.len() as int), from@, to@)) == r@ + to@
                    + replaced(rest.skip(from@.len() as int), from@, to@));
            }
            r.append(to);
            i += pattern.len();
        } else {
            proof {
                assert(rest.drop_first() == v@.skip(i + 1));
                assert(r@ + (seq![rest[0]] + replaced(rest.drop_first(), from@, to@)) == r@.push(
                    rest[0],
                ) + replaced(rest.drop_first(), from@, to@));
            }
            r.push(v[i]);
            i += 1;
        }
    }
    if pattern.len() == 0 {
        r.append(to);
    } else {
        assert(r@ + Seq::<char>::empty() == r@);
    }
    r
}

/// How often `c` occurs in `s`.
pub open spec fn count_char(s: Seq<char>, c: char) -> nat
    decreases s.len(),
{
    if s.len() == 0 {
        0
    } else if s[0] == c {
        1 + count_char(s.drop_first(), c)
    } else {
        count_char(s.drop_first(), c)
    }
}

/// A text that is split at a character falls into one piece more than the
/// character occurs in it.
pub proof fn lemma_split_len(s: Seq<char>, sep: char)
    ensures
        split(s, sep).len() == count_char(s, sep) + 1,
    decreases s.len(),
{
    let i = find_char(s, sep);
    lemma_find_char_bounds(s, sep);
    lemma_count_from(s, sep, i);
    if 0 <= i < s.len() {
        lemma_split_len(s.skip(i + 1), sep);
    }
}

/// Up to its first occurrence a character does not count; from there it
/// counts once more than after it.
pub proof fn lemma_count_from(s: Seq<char>, c: char, i: int)
    requires
        0 <= i <= s.len(),
        forall|j: int| 0 <= j < i ==> s[j] != c,
        i < s.len() ==> s[i] == c,
    ensures
        i < s.len() ==> count_char(s, c) == 1 + count_char(s.skip(i + 1), c),
        i == s.len() ==> count_char(s, c) == 0,
    decreases i,
{
    if s.len() == 0 {
    } else if i == 0 {
        assert(s.drop_first() == s.skip(1));
    } else {
        let rest = s.drop_first();
        assert forall|j: int| 0 <= j < i - 1 implies rest[j] != c by {
            assert(rest[j] == s[j + 1]);
        }
        lemma_count_from(rest, c, i - 1);
        if i < s.len() {
            assert(rest.skip(i) == s.skip(i + 1));
        }
    }
}

/// A number in decimal has at least one digit, starts with a digit, and has
/// more than one digit from ten on.
pub proof fn lemma_decimal_nat_shape(n: nat)
    ensures
        decimal_nat(n).len() >= 1,
        n >= 10 ==> decimal_nat(n).len() >= 2,
        exists|d: int| 0 <= d < 10 && decimal_nat(n)[0] == digit(d),
    decreases n,
{
    if n < 10 {
        assert(decimal_nat(n)[0] == digit(n as int));
    } else {
        lemma_decimal_nat_shape(n / 10);
        let d = choose|d: int| 0 <= d < 10 && decimal_nat(n / 10)[0] == digit(d);
        assert(decimal_nat(n)[0] == digit(d));
    }
}

/// Two numbers with the same decimal text are the same number.
pub proof fn lemma_decimal_nat_injective(a: nat, b: nat)
    requires
        decimal_nat(a) == decimal_nat(b),
    ensures
        a == b,
    decreases a,
{
    lemma_decimal_nat_shape(a);
    lemma_decimal_nat_shape(b);
    if a < 10 && b < 10 {
        assert(decimal_nat(a)[0] == digit(a as int));
        assert(decimal_nat(b)[0] == digit(b as int));
    } else if a >= 10 && b >= 10 {
        let x = decimal_nat(a / 10);
        let y = decimal_nat(b / 10);
        assert(decimal_nat(a).drop_last() == x);
        assert(decimal_nat(b).drop_last() == y);
        assert(decimal_nat(a).last() == digit((a % 10) as int));
        assert(decimal_nat(b).last() == digit((b % 10) as int));
        lemma_decimal_nat_injective(a / 10, b / 10);
    } else {
    }
}

} // verus!
