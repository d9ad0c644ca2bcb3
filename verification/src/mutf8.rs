//! Modified UTF-8, the string encoding of DEX files, and UTF-16 string order.
use vstd::prelude::*;

verus! {

/// The three-byte form of a 16-bit unit.
pub open spec fn three_bytes(u: int) -> Seq<u8> {
    seq![(0xE0 + u / 4096) as u8, (0x80 + u / 64 % 64) as u8, (0x80 + u % 64) as u8]
}

/// The UTF-16 code units of a character: one, or a surrogate pair above U+FFFF.
pub open spec fn utf16_char(c: char) -> Seq<u16> {
    let cp = c as int;
    if cp < 0x10000 {
        seq![cp as u16]
    } else {
        seq![(0xD800 + (cp - 0x10000) / 1024) as u16, (0xDC00 + (cp - 0x10000) % 1024) as u16]
    }
}

/// The encoding of a character. U+0000 takes the two-byte form, so that no zero
/// byte occurs; above U+FFFF each half of the surrogate pair takes three bytes.
pub open spec fn mutf8_char(c: char) -> Seq<u8> {
    let cp = c as int;
    if 0 < cp < 0x80 {
        seq![cp as u8]
    } else if cp < 0x800 {
        seq![(0xC0 + cp / 64) as u8, (0x80 + cp % 64) as u8]
    } else if cp < 0x10000 {
        three_bytes(cp)
    } else {
        three_bytes(0xD800 + (cp - 0x10000) / 1024) + three_bytes(0xDC00 + (cp - 0x10000) % 1024)
    }
}

/// The encoding of a text.
pub open spec fn mutf8(s: Seq<char>) -> Seq<u8>
    decreases s.len(),
{
    if s.len() == 0 {
        Seq::empty()
    } else {
        mutf8(s.drop_last()) + mutf8_char(s.last())
    }
}

/// The UTF-16 code units of a text.
pub open spec fn utf16(s: Seq<char>) -> Seq<u16>
    decreases s.len(),
{
    if s.len() == 0 {
        Seq::empty()
    } else {
        utf16(s.drop_last()) + utf16_char(s.last())
    }
}

/// Whether a continuation byte stands at `i`.
pub open spec fn continues(s: Seq<u8>, i: int) -> bool {
    0 <= i < s.len() && 0x80 <= s[i] < 0xC0
}

/// The 16-bit units that the bytes from `i` on stand for. A lead byte that is not
/// followed by all its continuation bytes stands for itself, as does a byte that
/// starts no sequence.
pub open spec fn cesu8_units(s: Seq<u8>, i: int) -> Seq<u16>
    decreases (if i < s.len() { s.len() - i } else { 0 }),
{
    if i < 0 || i >= s.len() {
        Seq::empty()
    } else if 0xC0 <= s[i] < 0xE0 && continues(s, i + 1) {
        seq![((s[i] - 0xC0) * 64 + s[i + 1] % 64) as u16] + cesu8_units(s, i + 2)
    } else if 0xE0 <= s[i] < 0xF0 && continues(s, i + 1) && continues(s, i + 2) {
        seq![((s[i] - 0xE0) * 4096 + s[i + 1] % 64 * 64 + s[i + 2] % 64) as u16] + cesu8_units(
            s,
            i + 3,
        )
    } else {
        seq![s[i] as u16] + cesu8_units(s, i + 1)
    }
}

/// Lexicographic order on code units, a prefix first.
pub open spec fn lex_le(a: Seq<u16>, b: Seq<u16>, i: int) -> bool
    decreases a.len() - i,
{
    if i < 0 || i >= a.len() {
        true
    } else if i >= b.len() {
        false
    } else if a[i] != b[i] {
        a[i] < b[i]
    } else {
        lex_le(a, b, i + 1)
    }
}

/// The text that a sequence of code units spells, pairing surrogates.
pub open spec fn utf16_text(u: Seq<u16>) -> Seq<char>
    decreases u.len(),
{
    if u.len() == 0 {
        Seq::empty()
    } else if u.len() >= 2 && 0xDC00 <= u.last() < 0xE000 {
        let high = u[u.len() - 2];
        utf16_text(u.take(u.len() - 2)).push(
            (0x10000 + (high - 0xD800) * 1024 + (u.last() - 0xDC00)) as char,
        )
    } else {
        utf16_text(u.drop_last()).push(u.last() as char)
    }
}

proof fn lemma_char_reads_back(u: Seq<u16>, c: char)
    ensures
        utf16_text(u + utf16_char(c)) == utf16_text(u).push(c),
{
    let v = u + utf16_char(c);
    let cp = c as int;
    if cp < 0x10000 {
        assert(v.drop_last() =~= u);
        assert(v.last() == utf16_char(c)[0]);
        assert(utf16_char(c)[0] == cp);
        assert(v.last() as char == c);
    } else {
        assert(v.take(v.len() - 2) =~= u);
        assert(v.last() == utf16_char(c)[1]);
        assert(v[v.len() - 2] == utf16_char(c)[0]);
    }
}

/// The code units of a text spell that text.
pub proof fn utf16_reads_back(s: Seq<char>)
    ensures
        utf16_text(utf16(s)) == s,
    decreases s.len(),
{
    if s.len() > 0 {
        utf16_reads_back(s.drop_last());
        lemma_char_reads_back(utf16(s.drop_last()), s.last());
        assert(s =~= s.drop_last().push(s.last()));
    } else {
        assert(s =~= Seq::empty());
    }
}

proof fn lemma_units_append(s: Seq<u8>, t: Seq<u8>, i: int)
    requires
        0 <= i <= s.len(),
        whole_sequences(s),
    ensures
        cesu8_units(s + t, i) == cesu8_units(s, i) + cesu8_units(s + t, s.len() as int),
    decreases s.len() - i,
{
    let st = s + t;
    if i < s.len() {
        assert(st[i] == s[i]);
        if 0xC0 <= s[i] < 0xE0 {
            assert(st[i + 1] == s[i + 1]);
            lemma_units_append(s, t, i + 2);
        } else if 0xE0 <= s[i] < 0xF0 {
            assert(st[i + 1] == s[i + 1]);
            assert(st[i + 2] == s[i + 2]);
            lemma_units_append(s, t, i + 3);
        } else {
            lemma_units_append(s, t, i + 1);
        }
    }
    assert(cesu8_units(st, i) =~= cesu8_units(s, i) + cesu8_units(st, s.len() as int));
}

/// Every lead byte in `s` is followed by its continuation bytes.
spec fn whole_sequences(s: Seq<u8>) -> bool {
    forall|k: int|
        0 <= k < s.len() ==> (0xC0 <= #[trigger] s[k] < 0xE0 ==> continues(s, k + 1)) && (0xE0
            <= s[k] < 0xF0 ==> continues(s, k + 1) && continues(s, k + 2))
}

proof fn lemma_char_whole(c: char)
    ensures
        whole_sequences(mutf8_char(c)),
        forall|k: int| 0 <= k < mutf8_char(c).len() ==> #[trigger] mutf8_char(c)[k] != 0,
{
    let e = mutf8_char(c);
    let cp = c as int;
    if 0 < cp < 0x80 {
        assert(e[0] == cp);
    } else if cp < 0x800 {
        assert(e[0] == 0xC0 + cp / 64);
        assert(e[1] == 0x80 + cp % 64);
    } else if cp < 0x10000 {
        assert(e[0] == 0xE0 + cp / 4096);
        assert(e[1] == 0x80 + cp / 64 % 64);
        assert(e[2] == 0x80 + cp % 64);
    } else {
        let h = 0xD800 + (cp - 0x10000) / 1024;
        let l = 0xDC00 + (cp - 0x10000) % 1024;
        assert(e[0] == 0xE0 + h / 4096);
        assert(e[1] == 0x80 + h / 64 % 64);
        assert(e[2] == 0x80 + h % 64);
        assert(e[3] == 0xE0 + l / 4096);
        assert(e[4] == 0x80 + l / 64 % 64);
        assert(e[5] == 0x80 + l % 64);
    }
}

proof fn lemma_text_whole(s: Seq<char>)
    ensures
        whole_sequences(mutf8(s)),
    decreases s.len(),
{
    if s.len() > 0 {
        lemma_text_whole(s.drop_last());
        lemma_char_whole(s.last());
        let m = mutf8(s);
        let p = mutf8(s.drop_last());
        let c = mutf8_char(s.last());
        assert forall|k: int| 0 <= k < m.len() implies (0xC0 <= #[trigger] m[k] < 0xE0 ==> continues(
            m,
            k + 1,
        )) && (0xE0 <= m[k] < 0xF0 ==> continues(m, k + 1) && continues(m, k + 2)) by {
            if k < p.len() {
                assert(m[k] == p[k]);
            } else {
                assert(m[k] == c[k - p.len()]);
            }
        }
    }
}

proof fn lemma_three_bytes_unit(p: Seq<u8>, u: int, t: Seq<u8>)
    requires
        0 <= u < 0x10000,
    ensures
        cesu8_units(p + three_bytes(u) + t, p.len() as int) == seq![u as u16] + cesu8_units(
            p + three_bytes(u) + t,
            p.len() as int + 3,
        ),
{
    let e = three_bytes(u);
    let m = p + e + t;
    let n = p.len() as int;
    assert(m[n] == e[0] && m[n + 1] == e[1] && m[n + 2] == e[2]);
    assert(e[0] == 0xE0 + u / 4096);
    assert(e[1] == 0x80 + u / 64 % 64);
    assert(e[2] == 0x80 + u % 64);
    assert((e[0] - 0xE0) * 4096 + e[1] as int % 64 * 64 + e[2] as int % 64 == u);
}

proof fn lemma_char_units(p: Seq<u8>, c: char)
    ensures
        cesu8_units(p + mutf8_char(c), p.len() as int) == utf16_char(c),
{
    let e = mutf8_char(c);
    let m = p + e;
    let n = p.len() as int;
    let cp = c as int;
    if 0 < cp < 0x80 {
        assert(m[n] == e[0]);
        assert(e[0] == cp);
        assert(cesu8_units(m, n + 1) =~= Seq::<u16>::empty());
        assert(cesu8_units(m, n) =~= utf16_char(c));
    } else if cp < 0x800 {
        assert(m[n] == e[0] && m[n + 1] == e[1]);
        assert(e[0] == 0xC0 + cp / 64);
        assert(e[1] == 0x80 + cp % 64);
        assert(cesu8_units(m, n + 2) =~= Seq::<u16>::empty());
        assert(cesu8_units(m, n) =~= utf16_char(c));
    } else if cp < 0x10000 {
        lemma_three_bytes_unit(p, cp, Seq::empty());
        assert(p + three_bytes(cp) + Seq::<u8>::empty() =~= m);
        assert(cesu8_units(m, n + 3) =~= Seq::<u16>::empty());
        assert(cesu8_units(m, n) =~= utf16_char(c));
    } else {
        let h = 0xD800 + (cp - 0x10000) / 1024;
        let l = 0xDC00 + (cp - 0x10000) % 1024;
        lemma_three_bytes_unit(p, h, three_bytes(l));
        assert(p + three_bytes(h) + three_bytes(l) =~= m);
        lemma_three_bytes_unit(p + three_bytes(h), l, Seq::empty());
        assert(p + three_bytes(h) + three_bytes(l) + Seq::<u8>::empty() =~= m);
        assert(cesu8_units(m, n + 6) =~= Seq::<u16>::empty());
        assert(cesu8_units(m, n) =~= utf16_char(c));
    }
}

/// The code units recovered from the encoding of a text are the text's own.
pub proof fn mutf8_units_are_utf16(s: Seq<char>)
    ensures
        cesu8_units(mutf8(s), 0) == utf16(s),
    decreases s.len(),
{
    if s.len() > 0 {
        let p = s.drop_last();
        mutf8_units_are_utf16(p);
        lemma_text_whole(p);
        lemma_units_append(mutf8(p), mutf8_char(s.last()), 0);
        lemma_char_units(mutf8(p), s.last());
    } else {
        assert(cesu8_units(mutf8(s), 0) =~= utf16(s));
    }
}

/// The encoding of a text determines the text.
pub proof fn mutf8_reads_back(s: Seq<char>)
    ensures
        utf16_text(cesu8_units(mutf8(s), 0)) == s,
{
    mutf8_units_are_utf16(s);
    utf16_reads_back(s);
}

/// No zero byte occurs in an encoding, so a zero byte can end a string.
pub proof fn mutf8_has_no_zero_byte(s: Seq<char>, i: int)
    requires
        0 <= i < mutf8(s).len(),
    ensures
        mutf8(s)[i] != 0,
    decreases s.len(),
{
    if s.len() > 0 {
        let p = mutf8(s.drop_last());
        if i < p.len() {
            mutf8_has_no_zero_byte(s.drop_last(), i);
        } else {
            lemma_char_whole(s.last());
            assert(mutf8(s)[i] == mutf8_char(s.last())[i - p.len()]);
        }
    }
}

fn push_three_bytes(out: &mut Vec<u8>, u: u32)
    requires
        u < 0x10000,
    ensures
        final(out)@ == old(out)@ + three_bytes(u as int),
{
    out.push((0xE0 + u / 4096) as u8);
    out.push((0x80 + u / 64 % 64) as u8);
    out.push((0x80 + u % 64) as u8);
    assert(out@ =~= old(out)@ + three_bytes(u as int));
}

fn push_char(out: &mut Vec<u8>, c: char)
    ensures
        final(out)@ == old(out)@ + mutf8_char(c),
{
    let cp: u32 = c as u32;
    if 0 < cp && cp < 0x80 {
        out.push(cp as u8);
    } else if cp < 0x800 {
        out.push((0xC0 + cp / 64) as u8);
        out.push((0x80 + cp % 64) as u8);
    } else if cp < 0x10000 {
        push_three_bytes(out, cp);
    } else {
        let adj: u32 = cp - 0x10000;
        push_three_bytes(out, 0xD800 + adj / 1024);
        push_three_bytes(out, 0xDC00 + adj % 1024);
    }
    assert(out@ =~= old(out)@ + mutf8_char(c));
}

/// Appends the encoding of `s`. No terminating zero byte is written.
pub fn encode_mutf8_into(out: &mut Vec<u8>, s: &str)
    ensures
        final(out)@ == old(out)@ + mutf8(s@),
{
    let chars = crate::text::chars_of(s);
    let mut i: usize = 0;
    while i < chars.len()
        invariant
            i <= chars@.len(),
            chars@ == s@,
            out@ =~= old(out)@ + mutf8(s@.take(i as int)),
        decreases chars.len() - i,
    {
        push_char(out, chars[i]);
        i = i + 1;
        assert(s@.take(i as int).drop_last() =~= s@.take(i - 1));
    }
    assert(s@.take(i as int) =~= s@);
}

fn char_units(c: char) -> (r: u32)
    ensures
        r == utf16_char(c).len(),
{
    if c as u32 >= 0x10000 {
        2
    } else {
        1
    }
}

fn push_char_units(out: &mut Vec<u16>, c: char)
    ensures
        final(out)@ == old(out)@ + utf16_char(c),
{
    let cp: u32 = c as u32;
    if cp < 0x10000 {
        out.push(cp as u16);
    } else {
        out.push((0xD800 + (cp - 0x10000) / 1024) as u16);
        out.push((0xDC00 + (cp - 0x10000) % 1024) as u16);
    }
    assert(out@ =~= old(out)@ + utf16_char(c));
}

/// Number of UTF-16 code units of `s`: two for a character above U+FFFF, one for
/// any other. Saturates at `u32::MAX`.
pub fn utf16_unit_count(s: &str) -> (r: u32)
    ensures
        r == (if utf16(s@).len() <= u32::MAX { utf16(s@).len() as int } else { u32::MAX as int }),
{
    let chars = crate::text::chars_of(s);
    let mut n: u32 = 0;
    let mut i: usize = 0;
    while i < chars.len()
        invariant
            i <= chars@.len(),
            chars@ == s@,
            n == (if utf16(s@.take(i as int)).len() <= u32::MAX {
                utf16(s@.take(i as int)).len() as int
            } else {
                u32::MAX as int
            }),
        decreases chars.len() - i,
    {
        n = n.saturating_add(char_units(chars[i]));
        i = i + 1;
        assert(s@.take(i as int).drop_last() =~= s@.take(i - 1));
    }
    assert(s@.take(i as int) =~= s@);
    n
}

/// The UTF-16 code units of `s`.
pub fn utf16_units(s: &str) -> (r: Vec<u16>)
    ensures
        r@ == utf16(s@),
{
    let chars = crate::text::chars_of(s);
    let mut out: Vec<u16> = Vec::new();
    let mut i: usize = 0;
    while i < chars.len()
        invariant
            i <= chars@.len(),
            chars@ == s@,
            out@ =~= utf16(s@.take(i as int)),
        decreases chars.len() - i,
    {
        push_char_units(&mut out, chars[i]);
        i = i + 1;
        assert(s@.take(i as int).drop_last() =~= s@.take(i - 1));
    }
    assert(s@.take(i as int) =~= s@);
    out
}

fn continues_at(bytes: &[u8], i: usize, ahead: usize) -> (r: bool)
    requires
        i <= bytes@.len(),
    ensures
        r == continues(bytes@, i + ahead),
{
    ahead < bytes.len() - i && 0x80 <= bytes[i + ahead] && bytes[i + ahead] < 0xC0
}

/// Appends the 16-bit units that `bytes` stand for; never fails.
pub fn push_cesu8_units(out: &mut Vec<u16>, bytes: &[u8])
    ensures
        final(out)@ == old(out)@ + cesu8_units(bytes@, 0),
{
    let mut i: usize = 0;
    while i < bytes.len()
        invariant
            i <= bytes@.len(),
            old(out)@ + cesu8_units(bytes@, 0) =~= out@ + cesu8_units(bytes@, i as int),
        decreases bytes@.len() - i,
    {
        let ghost at = i as int;
        let ghost sofar = out@;
        let b0: u16 = bytes[i] as u16;
        if 0xC0 <= b0 && b0 < 0xE0 && continues_at(bytes, i, 1) {
            let b1: u16 = bytes[i + 1] as u16;
            out.push((b0 - 0xC0) * 64 + b1 % 64);
            i = i + 2;
        } else if 0xE0 <= b0 && b0 < 0xF0 && continues_at(bytes, i, 1) && continues_at(
            bytes,
            i,
            2,
        ) {
            let b1: u16 = bytes[i + 1] as u16;
            let b2: u16 = bytes[i + 2] as u16;
            out.push((b0 - 0xE0) * 4096 + b1 % 64 * 64 + b2 % 64);
            i = i + 3;
        } else {
            out.push(b0);
            i = i + 1;
        }
        assert(cesu8_units(bytes@, at) =~= seq![out@.last()] + cesu8_units(bytes@, i as int));
        assert(sofar + cesu8_units(bytes@, at) =~= out@ + cesu8_units(bytes@, i as int));
    }
}

/// Whether `a` does not come after `b` in code-unit order.
pub fn units_ordered(a: &Vec<u16>, b: &Vec<u16>) -> (r: bool)
    ensures
        r == lex_le(a@, b@, 0),
{
    let mut i: usize = 0;
    while i < a.len()
        invariant
            i <= a@.len(),
            lex_le(a@, b@, 0) == lex_le(a@, b@, i as int),
        decreases a@.len() - i,
    {
        if i >= b.len() {
            return false;
        }
        if a[i] != b[i] {
            return a[i] < b[i];
        }
        i = i + 1;
    }
    true
}

// Laws of the order

proof fn lemma_lex_agree(a: Seq<u16>, b: Seq<u16>, i: int)
    requires
        0 <= i,
        a.len() == b.len(),
        forall|k: int| i <= k < a.len() ==> a[k] == b[k],
    ensures
        lex_le(a, b, i),
    decreases a.len() - i,
{
    if i < a.len() {
        lemma_lex_agree(a, b, i + 1);
    }
}

proof fn lemma_lex_trans(a: Seq<u16>, b: Seq<u16>, c: Seq<u16>, i: int)
    requires
        0 <= i,
        lex_le(a, b, i),
        lex_le(b, c, i),
    ensures
        lex_le(a, c, i),
    decreases a.len() - i,
{
    if i < a.len() && i < b.len() && i < c.len() && a[i] == b[i] && b[i] == c[i] {
        lemma_lex_trans(a, b, c, i + 1);
    }
}

proof fn lemma_lex_antisym(a: Seq<u16>, b: Seq<u16>, i: int)
    requires
        0 <= i <= a.len(),
        i <= b.len(),
        lex_le(a, b, i),
        lex_le(b, a, i),
    ensures
        a.len() == b.len(),
        forall|k: int| i <= k < a.len() ==> a[k] == b[k],
    decreases a.len() + b.len() - i,
{
    if i < a.len() && i < b.len() {
        lemma_lex_antisym(a, b, i + 1);
    }
}

proof fn lemma_lex_total(a: Seq<u16>, b: Seq<u16>, i: int)
    requires
        0 <= i,
    ensures
        lex_le(a, b, i) || lex_le(b, a, i),
    decreases a.len() - i,
{
    if i < a.len() && i < b.len() && a[i] == b[i] {
        lemma_lex_total(a, b, i + 1);
    }
}

/// The order on code units is a total order.
pub proof fn unit_order_is_total(a: Seq<u16>, b: Seq<u16>, c: Seq<u16>)
    ensures
        lex_le(a, a, 0),
        lex_le(a, b, 0) || lex_le(b, a, 0),
        lex_le(a, b, 0) && lex_le(b, a, 0) ==> a == b,
        lex_le(a, b, 0) && lex_le(b, c, 0) ==> lex_le(a, c, 0),
{
    lemma_lex_agree(a, a, 0);
    lemma_lex_total(a, b, 0);
    if lex_le(a, b, 0) && lex_le(b, a, 0) {
        lemma_lex_antisym(a, b, 0);
        assert(a =~= b);
    }
    if lex_le(a, b, 0) && lex_le(b, c, 0) {
        lemma_lex_trans(a, b, c, 0);
    }
}

proof fn lemma_lex_at(a: Seq<u16>, b: Seq<u16>, i: int, k: int)
    requires
        0 <= i <= k <= a.len(),
        k <= b.len(),
        forall|j: int| 0 <= j < k ==> #[trigger] a[j] == b[j],
        k == a.len() || k == b.len() || a[k] != b[k],
    ensures
        lex_le(a, b, i) <==> k == a.len() || (k < b.len() && a[k] < b[k]),
    decreases k - i,
{
    if i < k {
        assert(a[i] == b[i]);
        lemma_lex_at(a, b, i + 1, k);
    }
}

/// Of two lists of code units the one comes first that has the lesser unit where they first
/// differ, or that the other goes on from.
pub proof fn units_are_ordered_by_their_first_difference(a: Seq<u16>, b: Seq<u16>, k: int)
    requires
        0 <= k <= a.len(),
        k <= b.len(),
        forall|j: int| 0 <= j < k ==> #[trigger] a[j] == b[j],
        k == a.len() || k == b.len() || a[k] != b[k],
    ensures
        lex_le(a, b, 0) <==> k == a.len() || (k < b.len() && a[k] < b[k]),
{
    lemma_lex_at(a, b, 0, k);
}

/// A byte that starts no sequence, or one that is cut short, stands for itself.
pub proof fn stray_bytes_stand_for_themselves(s: Seq<u8>, i: int)
    requires
        0 <= i < s.len(),
        s[i] < 0xC0 || s[i] >= 0xF0 || i + 1 == s.len() || s[i + 1] < 0x80 || s[i + 1] >= 0xC0,
    ensures
        cesu8_units(s, i) == seq![s[i] as u16] + cesu8_units(s, i + 1),
{
}

} // verus!
