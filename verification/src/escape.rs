//! An ASCII escape for commit messages. libgit2 tells the characters of a message apart
//! byte by byte, with the C library's character classes; a message handed to it in this
//! escaped form is ASCII, so what it reads there depends on the message alone. Each
//! character that is not ASCII, and each U+0001, becomes U+0001 followed by sixteen
//! lowercase hexadecimal digits: the index of the character in a side table.

use vstd::prelude::*;
use crate::text::{chars_of, push_char};
use vstd::utf8::is_ascii_chars;

verus! {

/// The character that opens an escape.
pub open spec fn escape_mark() -> char {
    '\u{1}'
}

/// Whether `c` is written escaped: it is not ASCII, or it is the escape mark itself.
pub open spec fn escaped_char(c: char) -> bool {
    c == escape_mark() || !('\0' <= c && c <= '\u{7f}')
}

/// The lowercase hexadecimal digit of `d`, for `d < 16`.
pub open spec fn hex_char(d: nat) -> char {
    if d < 10 {
        (d + 48) as char
    } else {
        (d + 87) as char
    }
}

/// Whether `c` is a lowercase hexadecimal digit.
pub open spec fn is_hex(c: char) -> bool {
    ('0' <= c && c <= '9') || ('a' <= c && c <= 'f')
}

/// The value of the hexadecimal digit `c`.
pub open spec fn hex_value(c: char) -> nat {
    if c <= '9' {
        (c as int - 48) as nat
    } else {
        (c as int - 87) as nat
    }
}

/// `16` to the power `w`.
pub open spec fn pow16(w: nat) -> nat
    decreases w,
{
    if w == 0 {
        1
    } else {
        16 * pow16((w - 1) as nat)
    }
}

/// The `w` last hexadecimal digits of `k`, most significant first.
pub open spec fn hex_digits(k: nat, w: nat) -> Seq<char>
    decreases w,
{
    if w == 0 {
        Seq::empty()
    } else {
        hex_digits(k / 16, (w - 1) as nat).push(hex_char(k % 16))
    }
}

/// The number that the hexadecimal digits `s` write, most significant first.
pub open spec fn hex_number(s: Seq<char>) -> nat
    decreases s.len(),
{
    if s.len() == 0 {
        0
    } else {
        hex_number(s.drop_last()) * 16 + hex_value(s.last())
    }
}

/// Whether every character of `s` is a lowercase hexadecimal digit.
pub open spec fn all_hex(s: Seq<char>) -> bool {
    forall|i: int| 0 <= i < s.len() ==> #[trigger] is_hex(s[i])
}

proof fn lemma_hex_digits(k: nat, w: nat)
    requires
        k < pow16(w),
    ensures
        hex_digits(k, w).len() == w,
        all_hex(hex_digits(k, w)),
        is_ascii_chars(hex_digits(k, w)),
        !hex_digits(k, w).contains('\0'),
        !hex_digits(k, w).contains(escape_mark()),
        hex_number(hex_digits(k, w)) == k,
    decreases w,
{
    let s = hex_digits(k, w);
    if w > 0 {
        lemma_hex_digits(k / 16, (w - 1) as nat);
        let p = hex_digits(k / 16, (w - 1) as nat);
        let d = k % 16;
        assert(s.drop_last() =~= p);
        assert(s.last() == hex_char(d));
        assert(is_hex(hex_char(d)));
        assert(hex_value(hex_char(d)) == d);
        assert forall|i: int| 0 <= i < s.len() implies #[trigger] is_hex(s[i]) by {
            if i < p.len() {
                assert(s[i] == p[i]);
            }
        }
        assert forall|i: int| 0 <= i < s.len() implies '\0' <= #[trigger] s[i] <= '\u{7f}' by {
            assert(is_hex(s[i]));
        }
        assert(!s.contains('\0')) by {
            if s.contains('\0') {
                let i = choose|i: int| 0 <= i < s.len() && s[i] == '\0';
                assert(is_hex(s[i]));
            }
        }
        assert(!s.contains(escape_mark())) by {
            if s.contains(escape_mark()) {
                let i = choose|i: int| 0 <= i < s.len() && s[i] == escape_mark();
                assert(is_hex(s[i]));
            }
        }
    } else {
        assert(s.len() == 0);
    }
}

/// The lowercase hexadecimal digit of `d`.
fn hex_digit(d: u64) -> (c: char)
    requires
        d < 16,
    ensures
        c == hex_char(d as nat),
{
    if d < 10 {
        ((d as u8) + 48) as char
    } else {
        ((d as u8) + 87) as char
    }
}


/// Appends the `w` last hexadecimal digits of `k`.
fn push_hex(s: &mut String, k: u64, w: u64)
    ensures
        final(s)@ == old(s)@ + hex_digits(k as nat, w as nat),
    decreases w,
{
    if w > 0 {
        push_hex(s, k / 16, w - 1);
        push_char(s, hex_digit(k % 16));
    } else {
        assert(old(s)@ + hex_digits(k as nat, 0) =~= old(s)@);
    }
}

/// What the character `c` becomes in the escaped text, where `k` characters were put in
/// the side table before it.
pub open spec fn escape_piece(c: char, k: nat) -> Seq<char> {
    if escaped_char(c) {
        seq![escape_mark()] + hex_digits(k, 16)
    } else {
        seq![c]
    }
}

/// The escaped form of `m`, where `k` characters were put in the side table before it.
pub open spec fn escaped_from(m: Seq<char>, k: nat) -> Seq<char>
    decreases m.len(),
{
    if m.len() == 0 {
        Seq::empty()
    } else {
        escape_piece(m[0], k) + escaped_from(
            m.drop_first(),
            if escaped_char(m[0]) {
                k + 1
            } else {
                k
            },
        )
    }
}

/// The escaped form of a message.
pub open spec fn escaped(m: Seq<char>) -> Seq<char> {
    escaped_from(m, 0)
}

/// The side table of a message: the characters it writes escaped, in order.
pub open spec fn escape_table(m: Seq<char>) -> Seq<char>
    decreases m.len(),
{
    if m.len() == 0 {
        Seq::empty()
    } else {
        (if escaped_char(m[0]) {
            seq![m[0]]
        } else {
            Seq::empty()
        }) + escape_table(m.drop_first())
    }
}

proof fn lemma_escape_push(a: Seq<char>, c: char, k: nat)
    ensures
        escaped_from(a.push(c), k) == escaped_from(a, k) + escape_piece(
            c,
            k + escape_table(a).len(),
        ),
        escape_table(a.push(c)) == escape_table(a) + (if escaped_char(c) {
            seq![c]
        } else {
            Seq::empty()
        }),
    decreases a.len(),
{
    let b = a.push(c);
    if a.len() == 0 {
        let kk = if escaped_char(c) {
            k + 1
        } else {
            k
        };
        assert(b.drop_first() =~= Seq::<char>::empty());
        assert(b[0] == c);
        assert(escaped_from(b.drop_first(), kk) =~= Seq::<char>::empty());
        assert(escape_table(b.drop_first()) =~= Seq::<char>::empty());
        assert(escape_table(a) =~= Seq::<char>::empty());
        assert(escaped_from(a, k) =~= Seq::<char>::empty());
        assert(escaped_from(b, k) =~= escape_piece(c, k));
        assert(escape_table(b) =~= escape_table(a) + (if escaped_char(c) {
            seq![c]
        } else {
            Seq::empty()
        }));
    } else {
        let k1 = if escaped_char(a[0]) {
            k + 1
        } else {
            k
        };
        lemma_escape_push(a.drop_first(), c, k1);
        assert(b.drop_first() =~= a.drop_first().push(c));
        assert(b[0] == a[0]);
        assert(escape_table(a).len() == (if escaped_char(a[0]) {
            1nat
        } else {
            0nat
        }) + escape_table(a.drop_first()).len());
        assert(escaped_from(b, k) =~= escaped_from(a, k) + escape_piece(
            c,
            k + escape_table(a).len(),
        ));
        assert(escape_table(b) =~= escape_table(a) + (if escaped_char(c) {
            seq![c]
        } else {
            Seq::empty()
        }));
    }
}

proof fn lemma_table_len(m: Seq<char>)
    ensures
        escape_table(m).len() <= m.len(),
    decreases m.len(),
{
    if m.len() > 0 {
        lemma_table_len(m.drop_first());
    }
}

proof fn lemma_char_from_nul(c: char)
    ensures
        '\0' <= c,
{
}

/// Writes the escaped form of `m` and its side table.
pub fn escape_message(m: &str) -> (r: (String, Vec<char>))
    ensures
        m@.len() <= usize::MAX,
        r.0@ == escaped(m@),
        r.1@ == escape_table(m@),
{
    let cs = chars_of(m);
    let n = cs.len();
    let mut out = String::new();
    let mut table: Vec<char> = Vec::new();
    let mut i: usize = 0;
    while i < n
        invariant
            cs@ == m@,
            n == m@.len(),
            i <= n,
            out@ == escaped(m@.take(i as int)),
            table@ == escape_table(m@.take(i as int)),
            table@.len() <= i,
        decreases n - i,
    {
        let c = cs[i];
        proof {
            assert(m@.take(i + 1) =~= m@.take(i as int).push(c));
            lemma_escape_push(m@.take(i as int), c, 0);
        }
        if c == '\u{1}' || c > '\u{7f}' {
            push_char(&mut out, '\u{1}');
            push_hex(&mut out, table.len() as u64, 16);
            table.push(c);
            assert(out@ =~= escaped(m@.take(i + 1)));
        } else {
            assert(c != '\u{1}');
            assert(c <= '\u{7f}');
            proof {
                lemma_char_from_nul(c);
            }
            assert(!escaped_char(c));
            assert(escape_piece(c, escape_table(m@.take(i as int)).len()) == seq![c]);
            push_char(&mut out, c);
            assert(out@ =~= escaped(m@.take(i + 1)));
        }
        assert(table@ =~= escape_table(m@.take(i + 1)));
        i = i + 1;
    }
    assert(m@.take(n as int) =~= m@);
    (out, table)
}


/// Whether `s` begins with an escape of an index below `n`: the escape mark and sixteen
/// lowercase hexadecimal digits.
pub open spec fn escape_at_start(s: Seq<char>, n: nat) -> bool {
    &&& s.len() >= 17
    &&& s[0] == escape_mark()
    &&& all_hex(s.subrange(1, 17))
    &&& hex_number(s.subrange(1, 17)) < n
}

/// The text that the escaped text `s` stands for, with the side table `table`: each
/// escape of an index in the table is its character; every other character stands for
/// itself.
pub open spec fn unescape(table: Seq<char>, s: Seq<char>) -> Seq<char>
    decreases s.len(),
{
    if s.len() == 0 {
        Seq::empty()
    } else if s.len() >= 17 && escape_at_start(s, table.len()) {
        seq![table[hex_number(s.subrange(1, 17)) as int]] + unescape(table, s.skip(17))
    } else {
        seq![s[0]] + unescape(table, s.drop_first())
    }
}

proof fn lemma_pow16_bound(j: nat)
    requires
        j <= 16,
    ensures
        pow16(j) <= pow16(16),
        pow16(16) == 0x1_0000_0000_0000_0000,
    decreases 16 - j,
{
    reveal_with_fuel(pow16, 17);
    if j < 16 {
        lemma_pow16_bound(j + 1);
    }
}

/// The index that the escape at position `i` of `cs` writes, where it is one of an index
/// below `n`.
fn escape_index_at(cs: &Vec<char>, i: usize, n: usize) -> (r: Option<usize>)
    requires
        i < cs@.len(),
    ensures
        match r {
            Some(k) => escape_at_start(cs@.skip(i as int), n as nat) && k == hex_number(
                cs@.skip(i as int).subrange(1, 17),
            ),
            None => !escape_at_start(cs@.skip(i as int), n as nat),
        },
{
    let ghost s = cs@.skip(i as int);
    if cs.len() - i < 17 || cs[i] != '\u{1}' {
        return None;
    }
    let mut v: u64 = 0;
    let mut j: usize = 1;
    proof {
        lemma_pow16_bound(0);
        assert(s.subrange(1, 1).len() == 0);
    }
    while j < 17
        invariant
            s == cs@.skip(i as int),
            s.len() >= 17,
            i + 17 <= cs.len(),
            1 <= j <= 17,
            all_hex(s.subrange(1, j as int)),
            v == hex_number(s.subrange(1, j as int)),
            v < pow16((j - 1) as nat),
            pow16((j - 1) as nat) <= pow16(16),
            pow16(16) == 0x1_0000_0000_0000_0000,
        decreases 17 - j,
    {
        let c = cs[i + j];
        assert(c == s[j as int]);
        if !(('0' <= c && c <= '9') || ('a' <= c && c <= 'f')) {
            assert(!all_hex(s.subrange(1, 17))) by {
                assert(s.subrange(1, 17)[j - 1] == c);
                assert(!is_hex(s.subrange(1, 17)[j - 1]));
            }
            return None;
        }
        let d: u64 = if c <= '9' {
            (c as u64) - 48
        } else {
            (c as u64) - 87
        };
        proof {
            lemma_pow16_bound(j as nat);
            let t = s.subrange(1, j + 1);
            assert(t.drop_last() =~= s.subrange(1, j as int));
            assert(t.last() == c);
            assert forall|k: int| 0 <= k < t.len() implies #[trigger] is_hex(t[k]) by {
                if k < t.len() - 1 {
                    assert(t[k] == s.subrange(1, j as int)[k]);
                }
            }
        }
        v = v * 16 + d;
        j = j + 1;
    }
    if v < n as u64 {
        Some(v as usize)
    } else {
        None
    }
}


proof fn lemma_unescape_step(table: Seq<char>, s: Seq<char>, i: int)
    requires
        0 <= i < s.len(),
    ensures
        escape_at_start(s.skip(i), table.len()) ==> unescape(table, s.skip(i)) == seq![
            table[hex_number(s.skip(i).subrange(1, 17)) as int],
        ] + unescape(table, s.skip(i + 17)),
        !escape_at_start(s.skip(i), table.len()) ==> unescape(table, s.skip(i)) == seq![s[i]]
            + unescape(table, s.skip(i + 1)),
{
    let t = s.skip(i);
    if escape_at_start(t, table.len()) {
        assert(t.skip(17) =~= s.skip(i + 17));
    } else {
        assert(t.drop_first() =~= s.skip(i + 1));
    }
}

/// Writes the text that the escaped text `s` stands for, with the side table `table`.
pub fn unescape_text(table: &Vec<char>, s: &str) -> (r: String)
    ensures
        r@ == unescape(table@, s@),
{
    let cs = chars_of(s);
    let n = cs.len();
    let mut r = String::new();
    let mut i: usize = 0;
    assert(cs@.skip(0) =~= cs@);
    while i < n
        invariant
            cs@ == s@,
            n == cs@.len(),
            i <= n,
            r@ + unescape(table@, cs@.skip(i as int)) == unescape(table@, s@),
        decreases n - i,
    {
        proof {
            lemma_unescape_step(table@, cs@, i as int);
        }
        match escape_index_at(&cs, i, table.len()) {
            Some(k) => {
                push_char(&mut r, table[k]);
                assert(r@ + unescape(table@, cs@.skip(i + 17)) =~= unescape(table@, s@));
                i = i + 17;
            },
            None => {
                push_char(&mut r, cs[i]);
                assert(r@ + unescape(table@, cs@.skip(i + 1)) =~= unescape(table@, s@));
                i = i + 1;
            },
        }
    }
    assert(cs@.skip(n as int).len() == 0);
    assert(r@ =~= unescape(table@, s@));
    r
}

/// A list of (key, value) pairs with each key and value unescaped with `table`.
pub open spec fn unescape_pairs(table: Seq<char>, t: Seq<(Seq<char>, Seq<char>)>) -> Seq<(Seq<char>, Seq<char>)> {
    t.map_values(|p: (Seq<char>, Seq<char>)| (unescape(table, p.0), unescape(table, p.1)))
}

/// Unescapes, with `table`, the key and the value of each pair of `t`.
pub fn unescape_pair_list(table: &Vec<char>, t: &Vec<(String, String)>) -> (r: Vec<(String, String)>)
    ensures
        r@.map_values(|p: (String, String)| (p.0@, p.1@)) == unescape_pairs(
            table@,
            t@.map_values(|p: (String, String)| (p.0@, p.1@)),
        ),
{
    let mut r: Vec<(String, String)> = Vec::new();
    let n = t.len();
    let mut i: usize = 0;
    while i < n
        invariant
            n == t@.len(),
            i <= n,
            r@.len() == i,
            forall|j: int|
                0 <= j < i ==> (#[trigger] r@[j]).0@ == unescape(table@, t@[j].0@) && r@[j].1@
                    == unescape(table@, t@[j].1@),
        decreases n - i,
    {
        let k = unescape_text(table, t[i].0.as_str());
        let v = unescape_text(table, t[i].1.as_str());
        r.push((k, v));
        i = i + 1;
    }
    assert(r@.map_values(|p: (String, String)| (p.0@, p.1@)) =~= unescape_pairs(
        table@,
        t@.map_values(|p: (String, String)| (p.0@, p.1@)),
    ));
    r
}


proof fn lemma_piece(c: char, k: nat)
    requires
        k < pow16(16),
    ensures
        escaped_char(c) ==> escape_piece(c, k).len() == 17,
        !escaped_char(c) ==> escape_piece(c, k) == seq![c],
        is_ascii_chars(escape_piece(c, k)),
        escape_piece(c, k).contains('\0') <==> c == '\0',
{
    lemma_char_from_nul(c);
    lemma_hex_digits(k, 16);
    let p = escape_piece(c, k);
    let h = hex_digits(k, 16);
    if escaped_char(c) {
        assert forall|i: int| 0 <= i < p.len() implies '\0' <= #[trigger] p[i] <= '\u{7f}' by {
            if i > 0 {
                assert(p[i] == h[i - 1]);
            }
        }
        if p.contains('\0') {
            let i = choose|i: int| 0 <= i < p.len() && p[i] == '\0';
            assert(i > 0);
            assert(h[i - 1] == '\0');
            assert(h.contains('\0'));
        }
    } else {
        assert(p[0] == c);
    }
}

proof fn lemma_escaped_text(m: Seq<char>, k: nat)
    requires
        k + m.len() < pow16(16),
    ensures
        is_ascii_chars(escaped_from(m, k)),
        escaped_from(m, k).contains('\0') <==> m.contains('\0'),
    decreases m.len(),
{
    if m.len() > 0 {
        let c = m[0];
        let k1 = if escaped_char(c) {
            k + 1
        } else {
            k
        };
        lemma_escaped_text(m.drop_first(), k1);
        lemma_piece(c, k);
        let p = escape_piece(c, k);
        let rest = escaped_from(m.drop_first(), k1);
        let e = escaped_from(m, k);
        assert(e == p + rest);
        assert forall|i: int| 0 <= i < e.len() implies '\0' <= #[trigger] e[i] <= '\u{7f}' by {
            if i < p.len() {
                assert(e[i] == p[i]);
            } else {
                assert(e[i] == rest[i - p.len()]);
            }
        }
        if e.contains('\0') {
            let i = choose|i: int| 0 <= i < e.len() && e[i] == '\0';
            if i < p.len() {
                assert(p[i] == '\0');
                assert(p.contains('\0'));
                assert(m[0] == '\0');
            } else {
                assert(rest[i - p.len()] == '\0');
                assert(rest.contains('\0'));
                let j = choose|j: int| 0 <= j < m.drop_first().len() && m.drop_first()[j] == '\0';
                assert(m[j + 1] == '\0');
            }
        }
        if m.contains('\0') {
            let j = choose|j: int| 0 <= j < m.len() && m[j] == '\0';
            if j == 0 {
                assert(p.contains('\0'));
                let i = choose|i: int| 0 <= i < p.len() && p[i] == '\0';
                assert(e[i] == '\0');
            } else {
                assert(m.drop_first()[j - 1] == '\0');
                assert(rest.contains('\0'));
                let i = choose|i: int| 0 <= i < rest.len() && rest[i] == '\0';
                assert(e[i + p.len()] == '\0');
            }
        }
    } else {
        assert(escaped_from(m, k).len() == 0);
    }
}


proof fn lemma_unescape_escaped_from(table: Seq<char>, m: Seq<char>, k: nat)
    requires
        k + escape_table(m).len() <= table.len(),
        table.len() < pow16(16),
        table.subrange(k as int, k as int + escape_table(m).len()) == escape_table(m),
    ensures
        unescape(table, escaped_from(m, k)) == m,
    decreases m.len(),
{
    if m.len() > 0 {
        let c = m[0];
        let rest = m.drop_first();
        let et = escape_table(m);
        let s = escaped_from(m, k);
        if escaped_char(c) {
            assert(et == seq![c] + escape_table(rest));
            assert(table[k as int] == table.subrange(k as int, k as int + et.len())[0]);
            lemma_hex_digits(k, 16);
            let h = hex_digits(k, 16);
            let tail = escaped_from(rest, k + 1);
            assert(s == seq![escape_mark()] + h + tail);
            assert(s.subrange(1, 17) =~= h);
            assert(s.skip(17) =~= tail);
            assert(escape_at_start(s, table.len()));
            assert(table.subrange(k as int + 1, k as int + 1 + escape_table(rest).len()) =~= escape_table(rest)) by {
                assert forall|j: int| 0 <= j < escape_table(rest).len() implies table.subrange(
                    k as int + 1,
                    k as int + 1 + escape_table(rest).len(),
                )[j] == escape_table(rest)[j] by {
                    assert(table.subrange(k as int, k as int + et.len())[j + 1] == et[j + 1]);
                }
            }
            lemma_unescape_escaped_from(table, rest, k + 1);
            assert(unescape(table, s) =~= m);
        } else {
            assert(et == escape_table(rest));
            let tail = escaped_from(rest, k);
            assert(s == seq![c] + tail);
            assert(s[0] == c);
            assert(!escape_at_start(s, table.len()));
            assert(s.drop_first() =~= tail);
            lemma_unescape_escaped_from(table, rest, k);
            assert(unescape(table, s) =~= m);
        }
    } else {
        assert(escaped_from(m, k).len() == 0);
    }
}

/// The escaped form of a message is ASCII, holds a NUL character exactly where the
/// message does, and unescaping it with the message's side table gives the message back.
pub proof fn law_escape_round_trip(m: Seq<char>)
    requires
        m.len() <= usize::MAX,
    ensures
        is_ascii_chars(escaped(m)),
        escaped(m).contains('\0') <==> m.contains('\0'),
        unescape(escape_table(m), escaped(m)) == m,
{
    lemma_pow16_bound(0);
    lemma_table_len(m);
    lemma_escaped_text(m, 0);
    let t = escape_table(m);
    assert(t.subrange(0, t.len() as int) =~= t);
    lemma_unescape_escaped_from(t, m, 0);
}

} // verus!
