//! Text as sequences of characters: numerals, comparison, searching, splitting,
//! and the few conversions between bytes and strings the emulator needs.

use vstd::prelude::*;

verus! {

// ---- numerals ---------------------------------------------------------------

/// The character that writes the digit `d` (below sixteen).
pub open spec fn digit(d: nat, upper: bool) -> char {
    if d < 10 {
        (48 + d) as char
    } else if upper {
        (55 + d) as char
    } else {
        (87 + d) as char
    }
}

/// `n` written in `base` without leading zeros.
pub open spec fn numeral(n: nat, base: nat, upper: bool) -> Seq<char>
    decreases n,
{
    if n < base || base < 2 {
        seq![digit(n, upper)]
    } else {
        proof {
            vstd::arithmetic::div_mod::lemma_div_decreases(n as int, base as int);
        }
        numeral(n / base, base, upper).push(digit(n % base, upper))
    }
}

/// Decimal numeral.
pub open spec fn dec(n: nat) -> Seq<char> {
    numeral(n, 10, false)
}

/// Lower-case hexadecimal numeral.
pub open spec fn hex(n: nat) -> Seq<char> {
    numeral(n, 16, false)
}

/// `s` with zeros in front until it is at least `width` long.
pub open spec fn zero_padded(s: Seq<char>, width: nat) -> Seq<char>
    decreases width - s.len(),
{
    if s.len() >= width {
        s
    } else {
        zero_padded(seq!['0'] + s, width)
    }
}

/// `0x` and sixteen lower-case hexadecimal digits: how an address is printed.
pub open spec fn address_text(a: u64) -> Seq<char> {
    "0x"@ + zero_padded(hex(a as nat), 16)
}

fn digit_char(d: u8, upper: bool) -> (c: char)
    requires
        d < 16,
    ensures
        c == digit(d as nat, upper),
{
    if d < 10 {
        (48u8 + d) as char
    } else if upper {
        (55u8 + d) as char
    } else {
        (87u8 + d) as char
    }
}

/// Write `n` in `base`.
pub fn numeral_string(n: u64, base: u64, upper: bool) -> (r: String)
    requires
        2 <= base <= 16,
    ensures
        r@ == numeral(n as nat, base as nat, upper),
    decreases n,
{
    if n < base {
        let mut s = String::new();
        s.push(digit_char(n as u8, upper));
        s
    } else {
        proof {
            vstd::arithmetic::div_mod::lemma_div_decreases(n as int, base as int);
        }
        let mut s = numeral_string(n / base, base, upper);
        s.push(digit_char((n % base) as u8, upper));
        s
    }
}

/// Write `n` in decimal.
pub fn dec_string(n: u64) -> (r: String)
    ensures
        r@ == dec(n as nat),
{
    numeral_string(n, 10, false)
}

/// Write `n` in lower-case hexadecimal.
pub fn hex_string(n: u64) -> (r: String)
    ensures
        r@ == hex(n as nat),
{
    numeral_string(n, 16, false)
}

/// Write `n` in hexadecimal with at least `width` digits.
pub fn hex_padded(n: u64, width: usize, upper: bool) -> (r: String)
    ensures
        r@ == zero_padded(numeral(n as nat, 16, upper), width as nat),
{
    let s = numeral_string(n, 16, upper);
    let v = chars(s.as_str());
    pad_from(v, width)
}

fn pad_from(v: Vec<char>, width: usize) -> (r: String)
    ensures
        r@ == zero_padded(v@, width as nat),
    decreases width - v@.len(),
{
    if v.len() >= width {
        let r = string_of(&v, 0, v.len());
        assert(v@.subrange(0, v@.len() as int) =~= v@);
        r
    } else {
        let mut w: Vec<char> = Vec::new();
        w.push('0');
        let mut rest = v;
        let ghost before = rest@;
        w.append(&mut rest);
        assert(w@ =~= seq!['0'] + before);
        pad_from(w, width)
    }
}

/// Print an address.
pub fn address_string(a: u64) -> (r: String)
    ensures
        r@ == address_text(a),
{
    cat("0x", hex_padded(a, 16, false).as_str())
}

/// The number that a digit writes.
pub open spec fn digit_value(c: char) -> int {
    if c <= '9' {
        c as int - 48
    } else if c <= 'F' {
        c as int - 55
    } else {
        c as int - 87
    }
}

/// The number that hexadecimal digits write.
pub open spec fn hex_value(s: Seq<char>) -> int
    decreases s.len(),
{
    if s.len() == 0 {
        0
    } else {
        hex_value(s.drop_last()) * 16 + digit_value(s.last())
    }
}

/// Sixteen to the `w`.
pub open spec fn hex_span(w: nat) -> nat
    decreases w,
{
    if w == 0 {
        1
    } else {
        16 * hex_span((w - 1) as nat)
    }
}

/// A hexadecimal numeral writes its number, with as few digits as needed and
/// with digits only.
proof fn lemma_numeral(n: nat, upper: bool, w: nat)
    requires
        w > 0,
        n < hex_span(w),
    ensures
        hex_value(numeral(n, 16, upper)) == n,
        1 <= numeral(n, 16, upper).len() <= w,
        !numeral(n, 16, upper).contains('-'),
    decreases w,
{
    if n >= 16 {
        assert(hex_span(w) == 16 * hex_span((w - 1) as nat));
        assert(n / 16 < hex_span((w - 1) as nat));
        assert(hex_span(0) == 1);
        lemma_numeral(n / 16, upper, (w - 1) as nat);
        let front = numeral(n / 16, 16, upper);
        let s = numeral(n, 16, upper);
        assert(s == front.push(digit(n % 16, upper)));
        assert(s.drop_last() =~= front);
        assert forall|k: int| 0 <= k < s.len() implies s[k] != '-' by {
            if k < front.len() {
                assert(front.contains(front[k]));
            }
        }
    } else {
        let s = numeral(n, 16, upper);
        assert(s =~= seq![digit(n, upper)]);
        assert(s.drop_last() =~= Seq::<char>::empty());
        assert(hex_value(s.drop_last()) == 0);
    }
}

/// A zero in front changes no number.
proof fn lemma_leading_zero(s: Seq<char>)
    ensures
        hex_value(seq!['0'] + s) == hex_value(s),
    decreases s.len(),
{
    let t = seq!['0'] + s;
    if s.len() == 0 {
        assert(t.drop_last() =~= Seq::<char>::empty());
        assert(hex_value(t.drop_last()) == 0);
    } else {
        lemma_leading_zero(s.drop_last());
        assert(t.drop_last() =~= seq!['0'] + s.drop_last());
    }
}

proof fn lemma_padding(s: Seq<char>, w: nat)
    requires
        s.len() <= w,
    ensures
        hex_value(zero_padded(s, w)) == hex_value(s),
        zero_padded(s, w).len() == w,
        !s.contains('-') ==> !zero_padded(s, w).contains('-'),
    decreases w - s.len(),
{
    if s.len() < w {
        let t = seq!['0'] + s;
        lemma_leading_zero(s);
        lemma_padding(t, w);
        if !s.contains('-') {
            assert forall|k: int| 0 <= k < t.len() implies t[k] != '-' by {
                if k > 0 {
                    assert(s.contains(s[k - 1]));
                }
            }
        }
    }
}

/// A number below `16^w` written with `w` hexadecimal digits: that many digits,
/// no dash among them, and the number can be read back.
pub proof fn lemma_hex_group(n: nat, upper: bool, w: nat)
    requires
        w > 0,
        n < hex_span(w),
    ensures
        zero_padded(numeral(n, 16, upper), w).len() == w,
        !zero_padded(numeral(n, 16, upper), w).contains('-'),
        hex_value(zero_padded(numeral(n, 16, upper), w)) == n,
{
    lemma_numeral(n, upper, w);
    lemma_padding(numeral(n, 16, upper), w);
}

// ---- building ---------------------------------------------------------------

/// `String::push`: the character is appended and nothing else changes.
pub assume_specification[ std::string::String::push ](s: &mut std::string::String, c: char)
    ensures
        final(s)@ == old(s)@.push(c),
;

/// Concatenate two strings.
pub fn cat(a: &str, b: &str) -> (r: String)
    ensures
        r@ == a@ + b@,
{
    let mut s = a.to_owned();
    s.append(b);
    s
}

/// Concatenate three strings.
pub fn cat3(a: &str, b: &str, c: &str) -> (r: String)
    ensures
        r@ == a@ + b@ + c@,
{
    let mut s = a.to_owned();
    s.append(b);
    s.append(c);
    s
}

/// The characters of a string.
pub fn chars(s: &str) -> (v: Vec<char>)
    ensures
        v@ == s@,
{
    let mut v: Vec<char> = Vec::new();
    for c in it: s.chars()
        invariant
            v@ == it.seq().take(it.index() as int),
            it.seq() == s@,
    {
        v.push(c);
        assert(it.seq().take(it.index() + 1) =~= it.seq().take(it.index() as int).push(c));
    }
    assert(v@ =~= s@);
    v
}

/// The string made of the characters `from..to`.
pub fn string_of(v: &[char], from: usize, to: usize) -> (r: String)
    requires
        from <= to <= v@.len(),
    ensures
        r@ == v@.subrange(from as int, to as int),
{
    let mut s = String::new();
    let mut i: usize = from;
    assert(v@.subrange(from as int, from as int) =~= Seq::<char>::empty());
    while i < to
        invariant
            from <= i <= to <= v@.len(),
            s@ == v@.subrange(from as int, i as int),
        decreases to - i,
    {
        s.push(v[i]);
        assert(v@.subrange(from as int, i + 1) =~= v@.subrange(from as int, i as int).push(v@[i as int]));
        i += 1;
    }
    s
}

// ---- comparing --------------------------------------------------------------

/// Strings with the same UTF-8 bytes are the same string.
pub proof fn lemma_bytes_determine_text(a: Seq<char>, b: Seq<char>)
    requires
        vstd::utf8::encode_utf8(a) == vstd::utf8::encode_utf8(b),
    ensures
        a == b,
{
    vstd::utf8::encode_utf8_decode_utf8(a);
    vstd::utf8::encode_utf8_decode_utf8(b);
}

/// String equality.
pub fn same(a: &str, b: &str) -> (r: bool)
    ensures
        r == (a@ == b@),
{
    let x = a.as_bytes();
    let y = b.as_bytes();
    if x.len() != y.len() {
        return false;
    }
    let mut i: usize = 0;
    while i < x.len()
        invariant
            i <= x@.len(),
            x@.len() == y@.len(),
            x@ == vstd::utf8::encode_utf8(a@),
            y@ == vstd::utf8::encode_utf8(b@),
            forall|k: int| 0 <= k < i ==> x@[k] == y@[k],
        decreases x@.len() - i,
    {
        if x[i] != y[i] {
            return false;
        }
        i += 1;
    }
    proof {
        assert(x@ =~= y@);
        lemma_bytes_determine_text(a@, b@);
    }
    true
}

/// Lexicographic order by code point, the order of Rust strings.
pub open spec fn less(a: Seq<char>, b: Seq<char>) -> bool
    decreases a.len(),
{
    if b.len() == 0 {
        false
    } else if a.len() == 0 {
        true
    } else if a[0] != b[0] {
        (a[0] as int) < (b[0] as int)
    } else {
        less(a.drop_first(), b.drop_first())
    }
}

/// `less` skips a common prefix.
proof fn lemma_less_skip(a: Seq<char>, b: Seq<char>, k: int)
    requires
        0 <= k <= a.len(),
        k <= b.len(),
        forall|j: int| 0 <= j < k ==> a[j] == b[j],
    ensures
        less(a, b) == less(a.skip(k), b.skip(k)),
    decreases k,
{
    if k == 0 {
        assert(a.skip(0) =~= a);
        assert(b.skip(0) =~= b);
    } else {
        lemma_less_skip(a.drop_first(), b.drop_first(), k - 1);
        assert(a.drop_first().skip(k - 1) =~= a.skip(k));
        assert(b.drop_first().skip(k - 1) =~= b.skip(k));
    }
}

fn code_point(c: char) -> (u: u32)
    ensures
        u as int == c as int,
{
    c as u32
}

/// Whether `a` sorts before `b`.
pub fn is_less(a: &str, b: &str) -> (r: bool)
    ensures
        r == less(a@, b@),
{
    let x = chars(a);
    let y = chars(b);
    let mut i: usize = 0;
    while i < x.len() && i < y.len()
        invariant
            i <= x@.len(),
            i <= y@.len(),
            x@ == a@,
            y@ == b@,
            forall|k: int| 0 <= k < i ==> x@[k] == y@[k],
        decreases x@.len() - i,
    {
        if x[i] != y[i] {
            proof {
                lemma_less_skip(a@, b@, i as int);
            }
            return code_point(x[i]) < code_point(y[i]);
        }
        i += 1;
    }
    proof {
        lemma_less_skip(a@, b@, i as int);
    }
    i < y.len()
}

/// The order is irreflexive.
pub proof fn lemma_less_irreflexive(a: Seq<char>)
    ensures
        !less(a, a),
    decreases a.len(),
{
    if a.len() > 0 {
        lemma_less_irreflexive(a.drop_first());
    }
}

/// Two strings of which neither sorts before the other are equal.
pub proof fn lemma_less_total(a: Seq<char>, b: Seq<char>)
    ensures
        less(a, b) || less(b, a) || a == b,
        !(less(a, b) && less(b, a)),
    decreases a.len(),
{
    if a.len() > 0 && b.len() > 0 {
        if a[0] == b[0] {
            lemma_less_total(a.drop_first(), b.drop_first());
            if a.drop_first() == b.drop_first() {
                assert(a =~= seq![a[0]] + a.drop_first());
                assert(b =~= seq![b[0]] + b.drop_first());
            }
        }
    } else if a.len() == 0 && b.len() == 0 {
        assert(a =~= b);
    }
}

/// The order is transitive.
pub proof fn lemma_less_transitive(a: Seq<char>, b: Seq<char>, c: Seq<char>)
    requires
        less(a, b),
        less(b, c),
    ensures
        less(a, c),
    decreases a.len(),
{
    if a.len() > 0 && b.len() > 0 && c.len() > 0 {
        if a[0] == b[0] && b[0] == c[0] {
            lemma_less_transitive(a.drop_first(), b.drop_first(), c.drop_first());
        }
    }
}

// ---- searching --------------------------------------------------------------

/// Whether `s` starts with `p`.
pub fn starts_with(s: &str, p: &str) -> (r: bool)
    ensures
        r == p@.is_prefix_of(s@),
{
    let x = chars(s);
    let y = chars(p);
    matches_at(&x, 0, &y)
}

/// Whether `s` ends with `p`.
pub fn ends_with(s: &str, p: &str) -> (r: bool)
    ensures
        r == p@.is_suffix_of(s@),
{
    let x = chars(s);
    let y = chars(p);
    if y.len() > x.len() {
        return false;
    }
    let at: usize = x.len() - y.len();
    let r = matches_at(&x, at, &y);
    assert(x@.subrange(at as int, at + y@.len()) =~= s@.subrange(s@.len() - p@.len(), s@.len() as int));
    r
}

/// Whether `p` stands in `s` at position `at`.
pub fn matches_at(s: &[char], at: usize, p: &[char]) -> (r: bool)
    requires
        at <= s@.len(),
    ensures
        r == (at + p@.len() <= s@.len() && s@.subrange(at as int, at + p@.len()) == p@),
        at == 0 ==> r == p@.is_prefix_of(s@),
{
    if p.len() > s.len() - at {
        return false;
    }
    let mut i: usize = 0;
    while i < p.len()
        invariant
            i <= p@.len(),
            at + p@.len() <= s@.len() <= usize::MAX,
            forall|k: int| 0 <= k < i ==> s@[at + k] == p@[k],
        decreases p@.len() - i,
    {
        if s[at + i] != p[i] {
            assert(s@.subrange(at as int, at + p@.len())[i as int] != p@[i as int]);
            return false;
        }
        i += 1;
    }
    assert(s@.subrange(at as int, at + p@.len()) =~= p@);
    true
}

/// Whether the character `c` occurs in `s`.
pub fn has_char(s: &[char], c: char) -> (r: bool)
    ensures
        r == s@.contains(c),
{
    let mut i: usize = 0;
    while i < s.len()
        invariant
            i <= s@.len(),
            forall|k: int| 0 <= k < i ==> s@[k] != c,
        decreases s@.len() - i,
    {
        if s[i] == c {
            return true;
        }
        i += 1;
    }
    false
}

/// Position of the first `c` in `s` at or after `from`, else the length.
pub open spec fn next_char(s: Seq<char>, from: int, c: char) -> int
    decreases s.len() - from,
{
    if from < 0 || from >= s.len() {
        s.len() as int
    } else if s[from] == c {
        from
    } else {
        next_char(s, from + 1, c)
    }
}

/// `next_char` is where it should be.
pub proof fn lemma_next_char(s: Seq<char>, from: int, c: char)
    requires
        0 <= from <= s.len(),
    ensures
        from <= next_char(s, from, c) <= s.len(),
        next_char(s, from, c) < s.len() ==> s[next_char(s, from, c)] == c,
        forall|k: int| from <= k < next_char(s, from, c) ==> s[k] != c,
    decreases s.len() - from,
{
    if from < s.len() && s[from] != c {
        lemma_next_char(s, from + 1, c);
    }
}

/// Find the first `c` at or after `from`.
pub fn find_char(s: &[char], from: usize, c: char) -> (r: usize)
    requires
        from <= s@.len(),
    ensures
        r == next_char(s@, from as int, c),
        from <= r <= s@.len(),
{
    let mut i: usize = from;
    while i < s.len() && s[i] != c
        invariant
            from <= i <= s@.len(),
            next_char(s@, i as int, c) == next_char(s@, from as int, c),
        decreases s@.len() - i,
    {
        i += 1;
    }
    i
}

/// The pieces of `s` between the separators `sep`, from position `from` on.
pub open spec fn split_from(s: Seq<char>, from: int, sep: char) -> Seq<Seq<char>>
    decreases s.len() - from,
{
    if from < 0 || from > s.len() {
        seq![]
    } else {
        let end = next_char(s, from, sep);
        if from <= end < s.len() {
            seq![s.subrange(from, end)] + split_from(s, end + 1, sep)
        } else {
            seq![s.subrange(from, s.len() as int)]
        }
    }
}

/// The pieces of `s` between the separators `sep`; the empty string has one
/// (empty) piece.
pub open spec fn split(s: Seq<char>, sep: char) -> Seq<Seq<char>> {
    split_from(s, 0, sep)
}

/// A piece holds no separator, and every character of it is one of `s`.
pub proof fn lemma_split_pieces(s: Seq<char>, from: int, sep: char, i: int)
    requires
        0 <= from <= s.len(),
        0 <= i < split_from(s, from, sep).len(),
    ensures
        !split_from(s, from, sep)[i].contains(sep),
        forall|c: char| split_from(s, from, sep)[i].contains(c) ==> s.contains(c),
    decreases s.len() - from,
{
    lemma_next_char(s, from, sep);
    let end = next_char(s, from, sep);
    if end < s.len() {
        if i > 0 {
            lemma_split_pieces(s, end + 1, sep, i - 1);
        }
    }
}

/// The views of a sequence of strings.
pub open spec fn texts(v: Seq<String>) -> Seq<Seq<char>> {
    v.map_values(|s: String| s@)
}

/// Cut `s` at every `sep`.
pub fn split_at(s: &str, sep: char) -> (r: Vec<String>)
    ensures
        texts(r@) == split(s@, sep),
{
    let v = chars(s);
    let mut out: Vec<String> = Vec::new();
    let mut from: usize = 0;
    proof {
        assert(texts(out@) + split_from(s@, 0, sep) =~= split_from(s@, 0, sep));
    }
    loop
        invariant
            v@ == s@,
            from <= v@.len(),
            split(s@, sep) == texts(out@) + split_from(s@, from as int, sep),
        decreases v@.len() - from,
    {
        let end = find_char(&v, from, sep);
        let piece = string_of(&v, from, end);
        let ghost before = texts(out@);
        out.push(piece);
        assert(texts(out@) =~= before.push(piece@));
        if end >= v.len() {
            assert(texts(out@) =~= before + seq![piece@]);
            return out;
        }
        proof {
            let rest = split_from(s@, end + 1, sep);
            assert(before + (seq![piece@] + rest) =~= texts(out@) + rest);
        }
        from = end + 1;
    }
}

// ---- white space ------------------------------------------------------------

/// Unicode `White_Space`.
pub open spec fn is_space(c: char) -> bool {
    let u = c as u32;
    ||| 0x09 <= u <= 0x0d
    ||| u == 0x20
    ||| u == 0x85
    ||| u == 0xa0
    ||| u == 0x1680
    ||| 0x2000 <= u <= 0x200a
    ||| u == 0x2028
    ||| u == 0x2029
    ||| u == 0x202f
    ||| u == 0x205f
    ||| u == 0x3000
}

/// Whether `c` is white space.
pub fn space(c: char) -> (r: bool)
    ensures
        r == is_space(c),
{
    let u = c as u32;
    (0x09 <= u && u <= 0x0d) || u == 0x20 || u == 0x85 || u == 0xa0 || u == 0x1680 || (0x2000 <= u
        && u <= 0x200a) || u == 0x2028 || u == 0x2029 || u == 0x202f || u == 0x205f || u == 0x3000
}

/// `s` without the white space at its start.
pub open spec fn trim_start(s: Seq<char>) -> Seq<char>
    decreases s.len(),
{
    if s.len() > 0 && is_space(s[0]) {
        trim_start(s.drop_first())
    } else {
        s
    }
}

/// `s` without the white space at its end.
pub open spec fn trim_end(s: Seq<char>) -> Seq<char>
    decreases s.len(),
{
    if s.len() > 0 && is_space(s.last()) {
        trim_end(s.drop_last())
    } else {
        s
    }
}

/// `s` without the white space at both ends.
pub open spec fn trim(s: Seq<char>) -> Seq<char> {
    trim_end(trim_start(s))
}

fn space_start(v: &[char]) -> (i: usize)
    ensures
        i <= v@.len(),
        trim_start(v@) == v@.skip(i as int),
{
    let mut i: usize = 0;
    assert(v@.skip(0) =~= v@);
    while i < v.len() && space(v[i])
        invariant
            i <= v@.len(),
            trim_start(v@) == trim_start(v@.skip(i as int)),
        decreases v@.len() - i,
    {
        assert(v@.skip(i as int).drop_first() =~= v@.skip(i + 1));
        i += 1;
    }
    i
}

fn space_end(v: &[char], from: usize) -> (j: usize)
    requires
        from <= v@.len(),
    ensures
        from <= j <= v@.len(),
        trim_end(v@.skip(from as int)) == v@.subrange(from as int, j as int),
{
    let mut j: usize = v.len();
    assert(v@.skip(from as int) =~= v@.subrange(from as int, j as int));
    while j > from && space(v[j - 1])
        invariant
            from <= j <= v@.len(),
            trim_end(v@.skip(from as int)) == trim_end(v@.subrange(from as int, j as int)),
        decreases j,
    {
        assert(v@.subrange(from as int, j as int).drop_last() =~= v@.subrange(from as int, j - 1));
        j -= 1;
    }
    j
}

/// Remove the white space at both ends.
pub fn trimmed(s: &str) -> (r: String)
    ensures
        r@ == trim(s@),
{
    let v = chars(s);
    let i = space_start(&v);
    let j = space_end(&v, i);
    string_of(&v, i, j)
}

/// Remove the white space at the end.
pub fn end_trimmed(s: &str) -> (r: String)
    ensures
        r@ == trim_end(s@),
{
    let v = chars(s);
    let j = space_end(&v, 0);
    assert(v@.skip(0) =~= v@);
    string_of(&v, 0, j)
}

// ---- conversions ------------------------------------------------------------

/// The text that a byte sequence decodes to when every malformed part is
/// replaced by U+FFFD.
pub uninterp spec fn utf8_lossy(bytes: Seq<u8>) -> Seq<char>;

/// `String::from_utf8_lossy`. Claimed: the result is a function of the bytes,
/// and well-formed UTF-8 decodes to the text it encodes. How many replacement
/// characters a malformed part yields is left unsaid.
#[verifier::external_body]
pub(crate) fn from_utf8_lossy(bytes: &[u8]) -> (r: String)
    ensures
        r@ == utf8_lossy(bytes@),
        vstd::utf8::valid_utf8(bytes@) ==> r@ == vstd::utf8::decode_utf8(bytes@),
{
    String::from_utf8_lossy(bytes).into_owned()
}

/// `std::str::from_utf8`. Claimed: it succeeds exactly on well-formed UTF-8 and
/// yields the text the bytes encode.
#[verifier::external_body]
pub(crate) fn from_utf8(bytes: &[u8]) -> (r: Option<&str>)
    ensures
        r is Some <==> vstd::utf8::valid_utf8(bytes@),
        r matches Some(s) ==> s@ == vstd::utf8::decode_utf8(bytes@),
{
    std::str::from_utf8(bytes).ok()
}

/// `char::from_u32`: the character with that code, unless the number is a
/// surrogate's or beyond the last code point.
pub assume_specification[ char::from_u32 ](i: u32) -> (r: Option<char>)
    ensures
        r == (if i < 0xd800 || 0xe000 <= i <= 0x10ffff {
            Some(i as char)
        } else {
            None
        }),
;

/// The lower-case form of a text.
pub uninterp spec fn lowercase(s: Seq<char>) -> Seq<char>;

/// `str::to_lowercase`. Claimed: the result is a function of the text (the
/// mapping itself is Unicode's and takes tables to state).
#[verifier::external_body]
pub(crate) fn to_lowercase(s: &str) -> (r: String)
    ensures
        r@ == lowercase(s@),
{
    s.to_lowercase()
}

} // verus!
