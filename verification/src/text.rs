//! Text building blocks: hexadecimal and decimal numerals, padding, and the
//! one primitive that appends a character to a `String`.

use vstd::prelude::*;

verus! {

/// Appends `c` to `s`.
///
/// Trusted: calls `String::push`, which std documents as appending the given
/// `char` to the end of the string; the contract says exactly that.
#[verifier::external_body]
pub(crate) fn push_char(s: &mut String, c: char)
    ensures
        final(s)@ == old(s)@.push(c),
{
    s.push(c);
}

/// The upper-case hexadecimal digit of `d` (0..15).
pub open spec fn hex_char(d: int) -> char {
    seq!['0', '1', '2', '3', '4', '5', '6', '7', '8', '9', 'A', 'B', 'C', 'D', 'E', 'F'][d]
}

/// The decimal digit of `d` (0..9).
pub open spec fn dec_char(d: int) -> char {
    seq!['0', '1', '2', '3', '4', '5', '6', '7', '8', '9'][d]
}

/// The shortest upper-case hexadecimal numeral of `v`.
pub open spec fn hex_digits(v: nat) -> Seq<char>
    decreases v,
{
    if v < 16 {
        seq![hex_char(v as int)]
    } else {
        hex_digits(v / 16).push(hex_char((v % 16) as int))
    }
}

/// The shortest decimal numeral of `v`.
pub open spec fn dec_digits(v: nat) -> Seq<char>
    decreases v,
{
    if v < 10 {
        seq![dec_char(v as int)]
    } else {
        dec_digits(v / 10).push(dec_char((v % 10) as int))
    }
}

/// `n` copies of `c`.
pub open spec fn repeat_char(c: char, n: nat) -> Seq<char>
    decreases n,
{
    if n == 0 {
        Seq::empty()
    } else {
        repeat_char(c, (n - 1) as nat).push(c)
    }
}

/// `s` preceded by enough copies of `c` to be at least `w` long.
pub open spec fn pad_left(s: Seq<char>, c: char, w: nat) -> Seq<char> {
    if s.len() >= w {
        s
    } else {
        repeat_char(c, (w - s.len()) as nat) + s
    }
}

/// `s` followed by enough spaces to be at least `w` long.
pub open spec fn pad_right(s: Seq<char>, w: nat) -> Seq<char> {
    if s.len() >= w {
        s
    } else {
        s + repeat_char(' ', (w - s.len()) as nat)
    }
}

/// Hexadecimal with at least `w` digits, zero-padded: Rust's `{:0wX}`.
pub open spec fn hex_upper(v: nat, w: nat) -> Seq<char> {
    pad_left(hex_digits(v), '0', w)
}

fn hex_digit(d: u8) -> (c: char)
    requires
        d < 16,
    ensures
        c == hex_char(d as int),
{
    match d {
        0 => '0',
        1 => '1',
        2 => '2',
        3 => '3',
        4 => '4',
        5 => '5',
        6 => '6',
        7 => '7',
        8 => '8',
        9 => '9',
        10 => 'A',
        11 => 'B',
        12 => 'C',
        13 => 'D',
        14 => 'E',
        _ => 'F',
    }
}

fn dec_digit(d: u8) -> (c: char)
    requires
        d < 10,
    ensures
        c == dec_char(d as int),
{
    match d {
        0 => '0',
        1 => '1',
        2 => '2',
        3 => '3',
        4 => '4',
        5 => '5',
        6 => '6',
        7 => '7',
        8 => '8',
        _ => '9',
    }
}

proof fn lemma_hex_digits_len(v: nat)
    ensures
        hex_digits(v).len() >= 1,
    decreases v,
{
    if v >= 16 {
        lemma_hex_digits_len(v / 16);
    }
}

/// Appends `n` copies of `c`.
pub fn push_repeat(s: &mut String, c: char, n: usize)
    ensures
        final(s)@ == old(s)@ + repeat_char(c, n as nat),
{
    let mut i: usize = 0;
    while i < n
        invariant
            0 <= i <= n,
            s@ == old(s)@ + repeat_char(c, i as nat),
        decreases n - i,
    {
        push_char(s, c);
        i = i + 1;
        proof {
            assert(repeat_char(c, i as nat) == repeat_char(c, (i - 1) as nat).push(c));
        }
    }
}

/// Appends `v` in upper-case hexadecimal, zero-padded to at least `w` digits.
pub fn push_hex(s: &mut String, v: usize, w: usize)
    ensures
        final(s)@ == old(s)@ + hex_upper(v as nat, w as nat),
{
    // Collect the digits least significant first.
    let mut rev: Vec<char> = Vec::new();
    let mut x = v;
    let ghost mut tail: Seq<char> = Seq::empty();
    loop
        invariant_except_break
            hex_digits(v as nat) == hex_digits(x as nat) + tail,
        invariant
            rev@.len() == tail.len(),
            forall|k: int| 0 <= k < tail.len() ==> rev@[k] == tail[tail.len() - 1 - k],
        ensures
            hex_digits(v as nat) == tail,
        decreases x,
    {
        let d = (x % 16) as u8;
        let c = hex_digit(d);
        rev.push(c);
        if x < 16 {
            proof {
                assert(x % 16 == x);
                assert(hex_digits(x as nat) == seq![c]);
                tail = seq![c] + tail;
            }
            break;
        }
        proof {
            assert(hex_digits(x as nat) == hex_digits((x / 16) as nat).push(c));
            assert(hex_digits(x as nat) + tail == hex_digits((x / 16) as nat) + (seq![c] + tail));
            tail = seq![c] + tail;
        }
        x = x / 16;
    }
    let n = rev.len();
    if n < w {
        push_repeat(s, '0', w - n);
    }
    let ghost before = s@;
    let mut i: usize = n;
    while i > 0
        invariant
            0 <= i <= n,
            n == rev@.len(),
            n == tail.len(),
            forall|k: int| 0 <= k < tail.len() ==> rev@[k] == tail[tail.len() - 1 - k],
            s@ == before + tail.take(n - i),
        decreases i,
    {
        i = i - 1;
        push_char(s, rev[i]);
        proof {
            assert(tail.take(n - i) == tail.take(n - i - 1).push(tail[n - i - 1]));
        }
    }
    proof {
        assert(tail.take(n as int) == tail);
        lemma_hex_digits_len(v as nat);
    }
}

/// Appends the decimal numeral of `v`.
pub fn push_dec(s: &mut String, v: usize)
    ensures
        final(s)@ == old(s)@ + dec_digits(v as nat),
{
    let mut rev: Vec<char> = Vec::new();
    let mut x = v;
    let ghost mut tail: Seq<char> = Seq::empty();
    loop
        invariant_except_break
            dec_digits(v as nat) == dec_digits(x as nat) + tail,
        invariant
            rev@.len() == tail.len(),
            forall|k: int| 0 <= k < tail.len() ==> rev@[k] == tail[tail.len() - 1 - k],
        ensures
            dec_digits(v as nat) == tail,
        decreases x,
    {
        let d = (x % 10) as u8;
        let c = dec_digit(d);
        rev.push(c);
        if x < 10 {
            proof {
                assert(x % 10 == x);
                assert(dec_digits(x as nat) == seq![c]);
                tail = seq![c] + tail;
            }
            break;
        }
        proof {
            assert(dec_digits(x as nat) == dec_digits((x / 10) as nat).push(c));
            assert(dec_digits(x as nat) + tail == dec_digits((x / 10) as nat) + (seq![c] + tail));
            tail = seq![c] + tail;
        }
        x = x / 10;
    }
    let n = rev.len();
    let ghost before = s@;
    let mut i: usize = n;
    while i > 0
        invariant
            0 <= i <= n,
            n == rev@.len(),
            n == tail.len(),
            forall|k: int| 0 <= k < tail.len() ==> rev@[k] == tail[tail.len() - 1 - k],
            s@ == before + tail.take(n - i),
        decreases i,
    {
        i = i - 1;
        push_char(s, rev[i]);
        proof {
            assert(tail.take(n - i) == tail.take(n - i - 1).push(tail[n - i - 1]));
        }
    }
    proof {
        assert(tail.take(n as int) == tail);
    }
}

/// `s` holds no exclamation point.
pub open spec fn no_bang(s: Seq<char>) -> bool {
    forall|i: int| 0 <= i < s.len() ==> s[i] != '!'
}

pub proof fn lemma_no_bang_concat(a: Seq<char>, b: Seq<char>)
    requires
        no_bang(a),
        no_bang(b),
    ensures
        no_bang(a + b),
{
    assert forall|i: int| 0 <= i < (a + b).len() implies (a + b)[i] != '!' by {
        if i < a.len() {
            assert((a + b)[i] == a[i]);
        } else {
            assert((a + b)[i] == b[i - a.len()]);
        }
    }
}

proof fn lemma_hex_digits_no_bang(v: nat)
    ensures
        no_bang(hex_digits(v)),
    decreases v,
{
    if v >= 16 {
        lemma_hex_digits_no_bang(v / 16);
        let d = (v % 16) as int;
        assert(hex_char(d) != '!');
        assert(no_bang(seq![hex_char(d)]));
        lemma_no_bang_concat(hex_digits(v / 16), seq![hex_char(d)]);
        assert(hex_digits(v) == hex_digits(v / 16) + seq![hex_char(d)]);
    } else {
        assert(hex_char(v as int) != '!');
    }
}

proof fn lemma_dec_digits_no_bang(v: nat)
    ensures
        no_bang(dec_digits(v)),
    decreases v,
{
    if v >= 10 {
        lemma_dec_digits_no_bang(v / 10);
        let d = (v % 10) as int;
        assert(dec_char(d) != '!');
        assert(no_bang(seq![dec_char(d)]));
        lemma_no_bang_concat(dec_digits(v / 10), seq![dec_char(d)]);
        assert(dec_digits(v) == dec_digits(v / 10) + seq![dec_char(d)]);
    } else {
        assert(dec_char(v as int) != '!');
    }
}

proof fn lemma_repeat_no_bang(c: char, n: nat)
    requires
        c != '!',
    ensures
        no_bang(repeat_char(c, n)),
    decreases n,
{
    if n > 0 {
        lemma_repeat_no_bang(c, (n - 1) as nat);
        lemma_no_bang_concat(repeat_char(c, (n - 1) as nat), seq![c]);
        assert(repeat_char(c, n) == repeat_char(c, (n - 1) as nat) + seq![c]);
    }
}

/// Numerals hold only digits, so never an exclamation point.
pub proof fn lemma_numerals_no_bang(v: nat, w: nat)
    ensures
        no_bang(hex_upper(v, w)),
        no_bang(dec_digits(v)),
{
    lemma_hex_digits_no_bang(v);
    lemma_dec_digits_no_bang(v);
    if hex_digits(v).len() < w {
        lemma_repeat_no_bang('0', (w - hex_digits(v).len()) as nat);
        lemma_no_bang_concat(repeat_char('0', (w - hex_digits(v).len()) as nat), hex_digits(v));
    }
}

/// Rust's `{:02X?}` of three bytes: "[AA, BB, CC]".
pub open spec fn hex_list3(j: Seq<u8>) -> Seq<char> {
    "["@ + hex_upper(j[0] as nat, 2) + ", "@ + hex_upper(j[1] as nat, 2) + ", "@ + hex_upper(
        j[2] as nat,
        2,
    ) + "]"@
}

/// Appends "[AA, BB, CC]" for three bytes.
pub fn push_hex_list3(s: &mut String, j: [u8; 3])
    ensures
        final(s)@ == old(s)@ + hex_list3(j@),
{
    s.append("[");
    push_hex(s, j[0] as usize, 2);
    s.append(", ");
    push_hex(s, j[1] as usize, 2);
    s.append(", ");
    push_hex(s, j[2] as usize, 2);
    s.append("]");
    proof {
        assert(s@ =~= old(s)@ + hex_list3(j@));
    }
}

/// A `String` holding `s`.
pub fn owned(s: &str) -> (r: String)
    ensures
        r@ == s@,
{
    String::from_str(s)
}

} // verus!
