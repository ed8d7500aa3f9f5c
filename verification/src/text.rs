//! Text handling for commands typed at the prompt: splitting a line into
//! words, decimal port and socket numbers, and dotted IPv4 addresses.

use vstd::prelude::*;
use crate::ipv4::{spec_string_ip, decimal, digit_char};

verus! {

/// The characters of `s`, in order.
pub fn chars_of(s: &str) -> (v: Vec<char>)
    ensures
        v@ == s@,
{
    let mut v: Vec<char> = Vec::new();
    for c in iter: s.chars()
        invariant
            v@ == iter.seq().take(iter.index() as int),
    {
        v.push(c);
    }
    v
}

/// The string made of the characters of `v`.
#[verifier::external_body]
pub(crate) fn string_from(v: &Vec<char>) -> (s: String)
    ensures
        s@ == v@,
{
    v.iter().collect()
}

/// Appends `t` to `s` (`String::push_str`).
#[verifier::external_body]
pub(crate) fn push_str(s: &mut String, t: &str)
    ensures
        final(s)@ == old(s)@ + t@,
{
    s.push_str(t)
}

/// Whether `c` has the Unicode `White_Space` property, as
/// `char::is_whitespace` decides it.
pub uninterp spec fn white_space(c: char) -> bool;

/// `char::is_whitespace`: whether `c` has the Unicode `White_Space`
/// property (the property's table is Unicode's, not restated here).
#[verifier::external_body]
fn is_white_space(c: char) -> (b: bool)
    ensures
        b == white_space(c),
{
    c.is_whitespace()
}

/// Whether two strings hold the same characters.
pub fn str_eq(a: &str, b: &str) -> (r: bool)
    ensures
        r == (a@ == b@),
{
    let x = chars_of(a);
    let y = chars_of(b);
    if x.len() != y.len() {
        return false;
    }
    let mut i: usize = 0;
    while i < x.len()
        invariant
            x@ == a@,
            y@ == b@,
            x@.len() == y@.len(),
            i <= x@.len(),
            forall|j: int| 0 <= j < i ==> x@[j] == y@[j],
        decreases x@.len() - i,
    {
        if x[i] != y[i] {
            return false;
        }
        i = i + 1;
    }
    assert(x@ =~= y@);
    true
}

/// Whether `s` holds a line break.
pub fn has_newline(s: &str) -> (r: bool)
    ensures
        r == s@.contains('\n'),
{
    let v = chars_of(s);
    let mut i: usize = 0;
    while i < v.len()
        invariant
            v@ == s@,
            i <= v@.len(),
            forall|j: int| 0 <= j < i ==> v@[j] != '\n',
        decreases v@.len() - i,
    {
        if v[i] == '\n' {
            assert(v@[i as int] == '\n');
            return true;
        }
        i = i + 1;
    }
    false
}

/// The words of `s`: its maximal runs of non-whitespace characters, in
/// order.
pub open spec fn words(s: Seq<char>) -> Seq<Seq<char>>
    decreases s.len(),
{
    if s.len() == 0 {
        Seq::empty()
    } else {
        let w = words(s.drop_last());
        if white_space(s.last()) {
            w
        } else if s.len() >= 2 && !white_space(s[s.len() - 2]) {
            w.update(w.len() - 1, w.last().push(s.last()))
        } else {
            w.push(seq![s.last()])
        }
    }
}

/// The words of `s` (`str::split_whitespace`).
pub fn split_words(s: &str) -> (r: Vec<String>)
    ensures
        r@.map_values(|w: String| w@) == words(s@),
{
    let v = chars_of(s);
    let mut out: Vec<String> = Vec::new();
    let mut cur: Vec<char> = Vec::new();
    let mut i: usize = 0;
    while i < v.len()
        invariant
            v@ == s@,
            i <= v@.len(),
            i > 0 && !white_space(v@[i - 1]) ==> words(v@.take(i as int)).len() > 0
                && out@.map_values(|w: String| w@) == words(v@.take(i as int)).drop_last()
                && cur@ == words(v@.take(i as int)).last(),
            !(i > 0 && !white_space(v@[i - 1])) ==> out@.map_values(|w: String| w@) == words(v@.take(i as int))
                && cur@.len() == 0,
        decreases v@.len() - i,
    {
        let c = v[i];
        let ghost t0 = v@.take(i as int);
        let ghost t1 = v@.take(i + 1);
        proof {
            assert(t1.drop_last() =~= t0);
            assert(t1.last() == c);
            if i > 0 {
                assert(t1[t1.len() - 2] == v@[i - 1]);
            }
        }
        let ghost in_word = i > 0 && !white_space(v@[i - 1]);
        if is_white_space(c) {
            if cur.len() > 0 {
                let w = string_from(&cur);
                let ghost o0 = out@;
                out.push(w);
                proof {
                    assert(out@.map_values(|w: String| w@) =~= o0.map_values(|w: String| w@).push(cur@));
                    assert(words(t0).drop_last().push(words(t0).last()) =~= words(t0));
                }
                cur = Vec::new();
            } else {
                proof {
                    if in_word {
                        assert(words(t0).last().len() > 0) by {
                            lemma_last_word_nonempty(t0);
                        }
                    }
                }
            }
        } else {
            cur.push(c);
            proof {
                if in_word {
                    assert(words(t1).drop_last() =~= words(t0).drop_last());
                } else {
                    assert(words(t1).drop_last() =~= words(t0));
                }
            }
        }
        i = i + 1;
    }
    proof { assert(v@.take(i as int) =~= v@); }
    if cur.len() > 0 {
        let w = string_from(&cur);
        let ghost o0 = out@;
        out.push(w);
        proof {
            assert(out@.map_values(|w: String| w@) =~= o0.map_values(|w: String| w@).push(cur@));
            assert(words(v@).drop_last().push(words(v@).last()) =~= words(v@));
        }
    } else {
        proof {
            if i > 0 && !white_space(v@[i - 1]) {
                lemma_last_word_nonempty(v@);
            }
        }
    }
    out
}

/// A line that ends in a non-whitespace character has a word, and the last
/// word of a line is never empty.
proof fn lemma_last_word_nonempty(s: Seq<char>)
    ensures
        s.len() > 0 && !white_space(s.last()) ==> words(s).len() > 0,
        words(s).len() > 0 ==> words(s).last().len() > 0,
    decreases s.len(),
{
    if s.len() > 0 {
        lemma_last_word_nonempty(s.drop_last());
        if s.len() >= 2 {
            assert(s.drop_last().last() == s[s.len() - 2]);
        }
    }
}

/// Whether `c` is an ASCII decimal digit.
pub open spec fn is_digit(c: char) -> bool {
    '0' <= c && c <= '9'
}

/// The value of a decimal digit.
pub open spec fn digit_val(c: char) -> nat {
    (c as int - '0' as int) as nat
}

/// Whether every character of `s` is a decimal digit.
pub open spec fn all_digits(s: Seq<char>) -> bool {
    forall|i: int| 0 <= i < s.len() ==> is_digit(#[trigger] s[i])
}

/// The number that the decimal digits `s` write.
pub open spec fn decimal_value(s: Seq<char>) -> nat
    decreases s.len(),
{
    if s.len() == 0 {
        0
    } else {
        decimal_value(s.drop_last()) * 10 + digit_val(s.last())
    }
}

/// A number never gets smaller when digits are written after it.
proof fn lemma_decimal_prefix(s: Seq<char>, k: int)
    requires
        0 <= k <= s.len(),
        all_digits(s),
    ensures
        decimal_value(s.take(k)) <= decimal_value(s),
    decreases s.len(),
{
    if k < s.len() {
        assert(s.drop_last().take(k) =~= s.take(k));
        lemma_decimal_prefix(s.drop_last(), k);
    } else {
        assert(s.take(k) =~= s);
    }
}

/// The number a decimal port or socket number denotes, as `u16::from_str`
/// reads it: an optional `+`, then one or more decimal digits whose value
/// fits in 16 bits.
pub open spec fn spec_parse_u16(s: Seq<char>) -> Option<u16> {
    let d = if s.len() > 0 && s[0] == '+' { s.drop_first() } else { s };
    if d.len() > 0 && all_digits(d) && decimal_value(d) <= 65535 {
        Some(decimal_value(d) as u16)
    } else {
        None
    }
}

/// Reads a decimal number that fits in 16 bits (see `spec_parse_u16`).
pub fn parse_u16(s: &str) -> (r: Option<u16>)
    ensures
        r == spec_parse_u16(s@),
{
    let v = chars_of(s);
    let start: usize = if v.len() > 0 && v[0] == '+' { 1 } else { 0 };
    let ghost d = v@.subrange(start as int, v@.len() as int);
    proof {
        if start == 1 {
            assert(d =~= v@.drop_first());
        } else {
            assert(d =~= v@);
        }
    }
    if start >= v.len() {
        return None;
    }
    let mut val: u32 = 0;
    let mut i: usize = start;
    while i < v.len()
        invariant
            v@ == s@,
            start <= i <= v@.len(),
            d == v@.subrange(start as int, v@.len() as int),
            d == (if s@.len() > 0 && s@[0] == '+' { s@.drop_first() } else { s@ }),
            all_digits(d.take(i - start)),
            val as nat == decimal_value(d.take(i - start)),
            val <= 65535,
        decreases v@.len() - i,
    {
        let c = v[i];
        proof {
            assert(d.take(i - start + 1).drop_last() =~= d.take(i - start));
            assert(d[i - start] == c);
        }
        if !('0' <= c && c <= '9') {
            proof {
                assert(!is_digit(d[i - start]));
                assert(!all_digits(d));
            }
            return None;
        }
        val = val * 10 + (c as u32 - '0' as u32);
        assert(val as nat == decimal_value(d.take(i - start + 1)));
        proof {
            assert(all_digits(d.take(i - start + 1))) by {
                assert forall|j: int| 0 <= j < i - start + 1 implies is_digit(#[trigger] d.take(i - start + 1)[j]) by {
                    if j < i - start {
                        assert(d.take(i - start + 1)[j] == d.take(i - start)[j]);
                    }
                }
            }
        }
        if val > 65535 {
            proof {
                if all_digits(d) {
                    lemma_decimal_prefix(d, i - start + 1);
                    assert(decimal_value(d) > 65535);
                }
            }
            return None;
        }
        i = i + 1;
    }
    proof { assert(d.take(i - start) =~= d); }
    Some(val as u16)
}

/// One group of a dotted address, as the address reader takes it: one to
/// three decimal digits, no leading zero unless the group is `0`, and a value
/// of at most 255.
pub open spec fn octet(g: Seq<char>) -> Option<u8> {
    if 1 <= g.len() <= 3 && all_digits(g) && !(g.len() > 1 && g[0] == '0') && decimal_value(g) <= 255 {
        Some(decimal_value(g) as u8)
    } else {
        None
    }
}

/// The pieces of `s` between its dots, in order (as many as there are dots,
/// plus one).
pub open spec fn split_dots(s: Seq<char>) -> Seq<Seq<char>>
    decreases s.len(),
{
    if s.len() == 0 {
        seq![Seq::empty()]
    } else {
        let p = split_dots(s.drop_last());
        if s.last() == '.' {
            p.push(Seq::empty())
        } else {
            p.update(p.len() - 1, p.last().push(s.last()))
        }
    }
}

/// There is always at least one piece.
proof fn lemma_split_dots_len(s: Seq<char>)
    ensures
        split_dots(s).len() >= 1,
    decreases s.len(),
{
    if s.len() > 0 {
        lemma_split_dots_len(s.drop_last());
    }
}

/// The IPv4 address that `s` writes in dotted decimal, as
/// `Ipv4Addr::from_str` reads it: exactly four groups (see `octet`) joined
/// by dots, most significant first.
pub open spec fn spec_parse_addr(s: Seq<char>) -> Option<u32> {
    let g = split_dots(s);
    if g.len() == 4 && octet(g[0]) is Some && octet(g[1]) is Some && octet(g[2]) is Some && octet(g[3]) is Some {
        Some((octet(g[0])->0 * 16777216 + octet(g[1])->0 * 65536 + octet(g[2])->0 * 256 + octet(g[3])->0) as u32)
    } else {
        None
    }
}

/// Reads one group of a dotted address (see `octet`).
fn parse_octet(g: &Vec<char>) -> (r: Option<u8>)
    ensures
        r == octet(g@),
{
    let n = g.len();
    if n < 1 || n > 3 {
        return None;
    }
    if n > 1 && g[0] == '0' {
        return None;
    }
    let mut val: u32 = 0;
    let mut i: usize = 0;
    while i < n
        invariant
            n == g@.len(),
            1 <= n <= 3,
            i <= n,
            all_digits(g@.take(i as int)),
            val as nat == decimal_value(g@.take(i as int)),
            val < 1000,
        decreases n - i,
    {
        let c = g[i];
        proof {
            assert(g@.take(i + 1).drop_last() =~= g@.take(i as int));
        }
        if !('0' <= c && c <= '9') {
            proof { assert(!is_digit(g@[i as int])); }
            return None;
        }
        proof {
            assert(all_digits(g@.take(i + 1))) by {
                assert forall|j: int| 0 <= j < i + 1 implies is_digit(#[trigger] g@.take(i + 1)[j]) by {
                    if j < i {
                        assert(g@.take(i + 1)[j] == g@.take(i as int)[j]);
                    }
                }
            }
            assert(val * 10 + 9 < 1000) by {
                if i >= 1 {
                    assert(decimal_value(g@.take(i as int)) < 100) by {
                        lemma_decimal_bound(g@.take(i as int));
                    }
                }
            }
        }
        val = val * 10 + (c as u32 - '0' as u32);
        i = i + 1;
    }
    proof { assert(g@.take(n as int) =~= g@); }
    if val > 255 {
        return None;
    }
    Some(val as u8)
}

/// A number of at most two decimal digits is below 100.
proof fn lemma_decimal_bound(s: Seq<char>)
    requires
        s.len() <= 2,
        all_digits(s),
    ensures
        decimal_value(s) < 100,
        s.len() <= 1 ==> decimal_value(s) < 10,
    decreases s.len(),
{
    if s.len() > 0 {
        assert(all_digits(s.drop_last())) by {
            assert forall|j: int| 0 <= j < s.len() - 1 implies is_digit(#[trigger] s.drop_last()[j]) by {
                assert(s.drop_last()[j] == s[j]);
            }
        }
        assert(is_digit(s[s.len() - 1]));
        lemma_decimal_bound(s.drop_last());
    }
}

/// Reads an IPv4 address in dotted decimal (see `spec_parse_addr`).
pub fn parse_addr(s: &str) -> (r: Option<u32>)
    ensures
        r == spec_parse_addr(s@),
{
    let v = chars_of(s);
    let mut done: Vec<Vec<char>> = Vec::new();
    let mut cur: Vec<char> = Vec::new();
    let mut i: usize = 0;
    while i < v.len()
        invariant
            v@ == s@,
            i <= v@.len(),
            done@.map_values(|g: Vec<char>| g@).push(cur@) == split_dots(v@.take(i as int)),
        decreases v@.len() - i,
    {
        let c = v[i];
        let ghost t0 = v@.take(i as int);
        proof {
            assert(v@.take(i + 1).drop_last() =~= t0);
            lemma_split_dots_len(t0);
        }
        let ghost d0 = done@;
        if c == '.' {
            done.push(cur);
            cur = Vec::new();
            proof {
                assert(done@.map_values(|g: Vec<char>| g@) =~= d0.map_values(|g: Vec<char>| g@).push(split_dots(t0).last()));
                assert(done@.map_values(|g: Vec<char>| g@).push(cur@) =~= split_dots(t0).push(Seq::empty()));
            }
        } else {
            let ghost c0 = cur@;
            cur.push(c);
            proof {
                let p = split_dots(t0);
                assert(p =~= d0.map_values(|g: Vec<char>| g@).push(c0));
                assert(done@.map_values(|g: Vec<char>| g@).push(cur@) =~= p.update(p.len() - 1, p.last().push(c)));
            }
        }
        i = i + 1;
    }
    proof { assert(v@.take(i as int) =~= v@); }
    done.push(cur);
    let ghost g = split_dots(v@);
    proof {
        assert(done@.map_values(|x: Vec<char>| x@) =~= g);
    }
    if done.len() != 4 {
        return None;
    }
    proof {
        assert(done@[0]@ == g[0]);
        assert(done@[1]@ == g[1]);
        assert(done@[2]@ == g[2]);
        assert(done@[3]@ == g[3]);
    }
    let a = match parse_octet(&done[0]) { Some(x) => x, None => { return None; } };
    let b = match parse_octet(&done[1]) { Some(x) => x, None => { return None; } };
    let c = match parse_octet(&done[2]) { Some(x) => x, None => { return None; } };
    let d = match parse_octet(&done[3]) { Some(x) => x, None => { return None; } };
    Some((a as u32) * 16777216 + (b as u32) * 65536 + (c as u32) * 256 + (d as u32))
}

/// The written form of a byte is one to three digits without a leading
/// zero (but for 0 itself), with no dot, and reads back as the byte.
proof fn lemma_decimal(n: u8)
    ensures
        1 <= decimal(n).len() <= 3,
        all_digits(decimal(n)),
        !decimal(n).contains('.'),
        decimal_value(decimal(n)) == n,
        decimal(n).len() > 1 ==> decimal(n)[0] != '0',
        n >= 10 ==> decimal(n).len() >= 2,
        n < 10 ==> decimal(n).len() == 1,
        n < 100 ==> decimal(n).len() <= 2,
        decimal(n)[0] == '0' ==> n == 0,
    decreases n,
{
    let d = decimal(n);
    if n < 10 {
        assert(d =~= seq![digit_char(n)]);
        assert(digit_char(n) as int == 48 + n);
        assert(d.drop_last() =~= Seq::<char>::empty());
        assert(decimal_value(d.drop_last()) == 0);
        assert(digit_val(d.last()) == n);
    } else {
        let q = (n / 10) as u8;
        let r = (n % 10) as u8;
        lemma_decimal(q);
        let p = decimal(q);
        assert(d == p.push(digit_char(r)));
        assert(digit_char(r) as int == 48 + r);
        assert(d.drop_last() =~= p);
        assert(digit_val(d.last()) == r);
        assert(n as int == q as int * 10 + r as int) by (nonlinear_arith)
            requires
                q == n / 10,
                r == n % 10;
        assert forall|i: int| 0 <= i < d.len() implies is_digit(#[trigger] d[i]) by {
            if i < p.len() {
                assert(d[i] == p[i]);
            }
        }
        if d.contains('.') {
            let i = choose|i: int| 0 <= i < d.len() && d[i] == '.';
            if i < p.len() {
                assert(d[i] == p[i]);
                assert(p.contains('.'));
            }
        }
        assert(d[0] == p[0]);
        if q < 10 {
            assert(p.len() == 1);
        }
    }
}

/// Splitting at the dots a piece without a dot gives the piece itself.
proof fn lemma_split_dot_free(y: Seq<char>)
    requires
        !y.contains('.'),
    ensures
        split_dots(y) == seq![y],
    decreases y.len(),
{
    if y.len() > 0 {
        let z = y.drop_last();
        assert(!z.contains('.')) by {
            if z.contains('.') {
                let i = choose|i: int| 0 <= i < z.len() && z[i] == '.';
                assert(y[i] == '.');
            }
        }
        lemma_split_dot_free(z);
        assert(y.last() != '.') by {
            if y.last() == '.' {
                assert(y[y.len() - 1] == '.');
            }
        }
        assert(z.push(y.last()) =~= y);
    } else {
        assert(y =~= Seq::<char>::empty());
    }
}

/// Appending a dot and a piece without a dot adds that piece.
proof fn lemma_split_dots_append(x: Seq<char>, y: Seq<char>)
    requires
        !y.contains('.'),
    ensures
        split_dots(x + seq!['.'] + y) == split_dots(x).push(y),
    decreases y.len(),
{
    let xd = x + seq!['.'];
    assert(xd.drop_last() =~= x);
    if y.len() == 0 {
        assert(xd + y =~= xd);
        assert(xd.last() == '.');
        assert(y =~= Seq::<char>::empty());
        assert(split_dots(xd) == split_dots(xd.drop_last()).push(Seq::<char>::empty()));
    } else {
        let z = y.drop_last();
        assert(!z.contains('.')) by {
            if z.contains('.') {
                let i = choose|i: int| 0 <= i < z.len() && z[i] == '.';
                assert(y[i] == '.');
            }
        }
        lemma_split_dots_append(x, z);
        assert(y.last() != '.') by {
            if y.last() == '.' {
                assert(y[y.len() - 1] == '.');
            }
        }
        assert((xd + y).drop_last() =~= xd + z);
        assert((xd + y).last() == y.last());
        assert(z.push(y.last()) =~= y);
        let p = split_dots(x).push(z);
        assert(split_dots(xd + z) == p);
        assert(split_dots(xd + y) == p.update(p.len() - 1, p.last().push(y.last())));
        assert(p.update(p.len() - 1, p.last().push(y.last())) =~= split_dots(x).push(y));
    }
}

/// Reading back the dotted form of an address gives the address: printing
/// an address and parsing what was printed is the identity.
pub proof fn lemma_print_parse_ip(a: u32)
    ensures
        spec_parse_addr(spec_string_ip(a)) == Some(a),
{
    let b0 = (a >> 24u32) as u8;
    let b1 = (a >> 16u32) as u8;
    let b2 = (a >> 8u32) as u8;
    let b3 = a as u8;
    let d0 = decimal(b0);
    let d1 = decimal(b1);
    let d2 = decimal(b2);
    let d3 = decimal(b3);
    lemma_decimal(b0);
    lemma_decimal(b1);
    lemma_decimal(b2);
    lemma_decimal(b3);
    lemma_split_dot_free(d0);
    lemma_split_dots_append(d0, d1);
    lemma_split_dots_append(d0 + seq!['.'] + d1, d2);
    lemma_split_dots_append(d0 + seq!['.'] + d1 + seq!['.'] + d2, d3);
    assert(spec_string_ip(a) == d0 + seq!['.'] + d1 + seq!['.'] + d2 + seq!['.'] + d3);
    let g = split_dots(spec_string_ip(a));
    assert(g =~= seq![d0, d1, d2, d3]);
    assert(octet(d0) == Some(b0));
    assert(octet(d1) == Some(b1));
    assert(octet(d2) == Some(b2));
    assert(octet(d3) == Some(b3));
    assert(b0 as int * 16777216 + b1 as int * 65536 + b2 as int * 256 + b3 as int == a as int) by (bit_vector)
        requires
            b0 == (a >> 24u32) as u8,
            b1 == (a >> 16u32) as u8,
            b2 == (a >> 8u32) as u8,
            b3 == a as u8;
}

} // verus!
