//! Text and byte helpers shared by the whole crate: lowercase hexadecimal,
//! decimal numbers, hyphenated identifiers, big-endian integers and the
//! byte-wise ordering of strings.
use vstd::prelude::*;
use vstd::utf8::*;

verus! {

broadcast use vstd::seq_lib::group_seq_properties;

/// The UTF-8 bytes of a character sequence (what `str::as_bytes` returns).
pub open spec fn utf8(s: Seq<char>) -> Seq<u8> {
    encode_utf8(s)
}

/// Appends one character to a string (`String::push`).
#[verifier::external_body]
pub(crate) fn push_char(text: &mut String, c: char)
    ensures
        final(text)@ == old(text)@.push(c),
{
    text.push(c);
}

// ---------------------------------------------------------------- hexadecimal

/// The lowercase hexadecimal digit for a value below 16.
pub open spec fn hex_digit(n: int) -> char {
    if n < 10 {
        (48 + n) as char
    } else {
        (87 + n) as char
    }
}

/// Lowercase hexadecimal text of a byte sequence, two digits per byte, high nibble first.
pub open spec fn hex_text(bytes: Seq<u8>) -> Seq<char> {
    Seq::new(
        2 * bytes.len(),
        |i: int|
            if i % 2 == 0 {
                hex_digit((bytes[i / 2] / 16) as int)
            } else {
                hex_digit((bytes[i / 2] % 16) as int)
            },
    )
}

/// The value of one hexadecimal digit byte (either case), if it is one.
pub open spec fn hex_value(c: u8) -> Option<u8> {
    if 48 <= c <= 57 {
        Some((c - 48) as u8)
    } else if 97 <= c <= 102 {
        Some((c - 87) as u8)
    } else if 65 <= c <= 70 {
        Some((c - 55) as u8)
    } else {
        None
    }
}

/// Whether a byte string is hexadecimal text: an even number of hex digits.
pub open spec fn is_hex(text: Seq<u8>) -> bool {
    &&& text.len() % 2 == 0
    &&& forall|i: int| 0 <= i < text.len() ==> (#[trigger] hex_value(text[i])) is Some
}

/// The bytes that hexadecimal text denotes.
pub open spec fn hex_bytes(text: Seq<u8>) -> Seq<u8> {
    Seq::new(
        text.len() / 2,
        |i: int| (16 * hex_value(text[2 * i])->0 + hex_value(text[2 * i + 1])->0) as u8,
    )
}

/// Decoding hexadecimal text: `None` unless the text is hexadecimal.
pub open spec fn hex_decode(text: Seq<u8>) -> Option<Seq<u8>> {
    if is_hex(text) {
        Some(hex_bytes(text))
    } else {
        None
    }
}

fn hex_digit_char(n: u8) -> (c: char)
    requires
        n < 16,
    ensures
        c == hex_digit(n as int),
{
    if n < 10 {
        (n + 48) as char
    } else {
        (n + 87) as char
    }
}

/// Lowercase hexadecimal text of `bytes`.
pub fn encode_hex(bytes: &[u8]) -> (text: String)
    ensures
        text@ == hex_text(bytes@),
{
    let mut text = String::new();
    let mut i: usize = 0;
    while i < bytes.len()
        invariant
            i <= bytes@.len(),
            text@ =~= hex_text(bytes@.subrange(0, i as int)),
        decreases bytes@.len() - i,
    {
        let b = bytes[i];
        push_char(&mut text, hex_digit_char(b / 16));
        push_char(&mut text, hex_digit_char(b % 16));
        i = i + 1;
        assert(text@ =~= hex_text(bytes@.subrange(0, i as int)));
    }
    assert(bytes@.subrange(0, bytes@.len() as int) =~= bytes@);
    text
}

fn hex_value_of(c: u8) -> (r: Option<u8>)
    ensures
        r == hex_value(c),
{
    if 48 <= c && c <= 57 {
        Some(c - 48)
    } else if 97 <= c && c <= 102 {
        Some(c - 87)
    } else if 65 <= c && c <= 70 {
        Some(c - 55)
    } else {
        None
    }
}

/// Decodes hexadecimal text; `None` when the text is not hexadecimal.
pub fn decode_hex_bytes(text: &[u8]) -> (r: Option<Vec<u8>>)
    ensures
        match r {
            Some(v) => hex_decode(text@) == Some(v@),
            None => hex_decode(text@) is None,
        },
{
    if text.len() % 2 != 0 {
        return None;
    }
    let mut out: Vec<u8> = Vec::new();
    let mut i: usize = 0;
    while i < text.len() / 2
        invariant
            text@.len() % 2 == 0,
            i <= text@.len() / 2,
            out@.len() == i,
            forall|k: int| 0 <= k < 2 * i ==> (#[trigger] hex_value(text@[k])) is Some,
            forall|k: int|
                0 <= k < i ==> #[trigger] out@[k] == (16 * hex_value(text@[2 * k])->0
                    + hex_value(text@[2 * k + 1])->0) as u8,
        decreases text@.len() / 2 - i,
    {
        let high = hex_value_of(text[2 * i]);
        let low = hex_value_of(text[2 * i + 1]);
        match (high, low) {
            (Some(h), Some(l)) => {
                out.push(16 * h + l);
            },
            _ => {
                assert(!is_hex(text@));
                return None;
            },
        }
        i = i + 1;
        assert forall|k: int| 0 <= k < 2 * i implies (#[trigger] hex_value(text@[k])) is Some by {
            if k >= 2 * i - 2 {
                assert(k == 2 * (i - 1) || k == 2 * (i - 1) + 1);
            }
        }
    }
    assert(out@ =~= hex_bytes(text@));
    Some(out)
}

/// Decoding the lowercase hexadecimal text of any bytes gives those bytes back.
pub proof fn lemma_hex_round_trip(bytes: Seq<u8>)
    ensures
        hex_decode(utf8(hex_text(bytes))) == Some(bytes),
{
    let t = hex_text(bytes);
    assert(is_ascii_chars(t)) by {
        assert forall|i: int| 0 <= i < t.len() implies '\0' <= #[trigger] t[i] <= '\u{7f}' by {
            let n = if i % 2 == 0 { bytes[i / 2] / 16 } else { bytes[i / 2] % 16 };
            assert(n < 16);
        }
    }
    is_ascii_chars_encode_utf8(t);
    let u = utf8(t);
    assert forall|i: int| 0 <= i < u.len() implies (#[trigger] hex_value(u[i])) is Some by {
        assert(t[i] as u8 == u[i]);
    }
    assert(hex_bytes(u) =~= bytes) by {
        assert forall|i: int| 0 <= i < bytes.len() implies #[trigger] hex_bytes(u)[i] == bytes[i] by {
            assert(t[2 * i] as u8 == u[2 * i]);
            assert(t[2 * i + 1] as u8 == u[2 * i + 1]);
            assert((2 * i) / 2 == i);
            assert((2 * i + 1) / 2 == i);
            assert((2 * i) % 2 == 0);
            assert((2 * i + 1) % 2 == 1);
        }
    }
}


// ---------------------------------------------------------------- decimal

/// The decimal digit character for a value below 10.
pub open spec fn decimal_digit(n: int) -> char {
    (48 + n) as char
}

/// Decimal text of a natural number, without leading zeros.
pub open spec fn decimal_text(n: nat) -> Seq<char>
    decreases n,
{
    if n < 10 {
        seq![decimal_digit(n as int)]
    } else {
        decimal_text(n / 10).push(decimal_digit((n % 10) as int))
    }
}

/// Appends the decimal text of `n` to `text`.
pub fn push_decimal(text: &mut String, n: u64)
    ensures
        final(text)@ == old(text)@ + decimal_text(n as nat),
    decreases n,
{
    if n >= 10 {
        push_decimal(text, n / 10);
    }
    let d = (n % 10) as u8;
    push_char(text, (d + 48) as char);
    assert(final(text)@ =~= old(text)@ + decimal_text(n as nat)) by {
        if n >= 10 {
            assert(decimal_text(n as nat) == decimal_text((n / 10) as nat).push(
                decimal_digit((n % 10) as int),
            ));
        }
    }
}

// ---------------------------------------------------------------- big-endian integers

/// The `width` low-order bytes of `value`, most significant first.
pub open spec fn be_bytes(value: nat, width: nat) -> Seq<u8>
    decreases width,
{
    if width == 0 {
        seq![]
    } else {
        be_bytes(value / 256, (width - 1) as nat).push((value % 256) as u8)
    }
}

/// `be_bytes` yields exactly `width` bytes.
pub proof fn lemma_be_bytes_len(value: nat, width: nat)
    ensures
        be_bytes(value, width).len() == width,
    decreases width,
{
    if width > 0 {
        lemma_be_bytes_len(value / 256, (width - 1) as nat);
    }
}

/// Appends the `width` low-order bytes of `value`, most significant first.
pub fn push_be(target: &mut Vec<u8>, value: u128, width: usize)
    ensures
        final(target)@ == old(target)@ + be_bytes(value as nat, width as nat),
    decreases width,
{
    if width > 0 {
        push_be(target, value / 256, width - 1);
        target.push((value % 256) as u8);
        assert(final(target)@ =~= old(target)@ + be_bytes(value as nat, width as nat));
    } else {
        assert(final(target)@ =~= old(target)@ + be_bytes(value as nat, width as nat));
    }
}

/// The two's-complement value of a signed 64-bit integer, as an unsigned one.
pub open spec fn twos_complement_64(value: int) -> nat {
    if value >= 0 {
        value as nat
    } else {
        (value + 0x1_0000_0000_0000_0000) as nat
    }
}

/// Appends the eight big-endian two's-complement bytes of `value`.
pub fn push_i64_be(target: &mut Vec<u8>, value: i64)
    ensures
        final(target)@ == old(target)@ + be_bytes(twos_complement_64(value as int), 8),
{
    let unsigned: u128 = if value >= 0 {
        value as u128
    } else {
        let magnitude: u128 = (-(value as i128)) as u128;
        0x1_0000_0000_0000_0000u128 - magnitude
    };
    push_be(target, unsigned, 8);
}

// ---------------------------------------------------------------- identifiers

/// The hyphenated text of the first `count` bytes of a 16-byte identifier:
/// hexadecimal digits, with a hyphen before bytes 4, 6, 8 and 10.
pub open spec fn id_text_prefix(bytes: Seq<u8>, count: nat) -> Seq<char>
    decreases count,
{
    if count == 0 {
        seq![]
    } else {
        let i = (count - 1) as nat;
        let sep: Seq<char> = if i == 4 || i == 6 || i == 8 || i == 10 {
            seq!['-']
        } else {
            seq![]
        };
        id_text_prefix(bytes, i) + sep + hex_text(seq![bytes[i as int]])
    }
}

/// The canonical lowercase hyphenated text of a 128-bit identifier
/// (8-4-4-4-12 hexadecimal digits).
pub open spec fn id_text(id: u128) -> Seq<char> {
    id_text_prefix(be_bytes(id as nat, 16), 16)
}

/// Appends the canonical text of a 128-bit identifier.
pub fn push_id(text: &mut String, id: u128)
    ensures
        final(text)@ == old(text)@ + id_text(id),
{
    let mut bytes: Vec<u8> = Vec::new();
    push_be(&mut bytes, id, 16);
    proof {
        lemma_be_bytes_len(id as nat, 16);
    }
    assert(bytes@ =~= be_bytes(id as nat, 16));
    let ghost start = text@;
    let mut i: usize = 0;
    while i < 16
        invariant
            bytes@ == be_bytes(id as nat, 16),
            bytes@.len() == 16,
            i <= 16,
            text@ == start + id_text_prefix(bytes@, i as nat),
        decreases 16 - i,
    {
        if i == 4 || i == 6 || i == 8 || i == 10 {
            push_char(text, '-');
        }
        let b = bytes[i];
        push_char(text, hex_digit_char(b / 16));
        push_char(text, hex_digit_char(b % 16));
        proof {
            let sep: Seq<char> = if i == 4 || i == 6 || i == 8 || i == 10 {
                seq!['-']
            } else {
                seq![]
            };
            assert(hex_text(seq![b]) =~= seq![hex_digit((b / 16) as int), hex_digit((b % 16) as int)]);
            assert(id_text_prefix(bytes@, (i + 1) as nat) == id_text_prefix(bytes@, i as nat) + sep
                + hex_text(seq![bytes@[i as int]]));
        }
        i = i + 1;
        assert(text@ =~= start + id_text_prefix(bytes@, i as nat));
    }
}

/// Appends the text of `s` to `text`.
pub fn push_str(text: &mut String, s: &str)
    ensures
        final(text)@ == old(text)@ + s@,
{
    text.append(s);
}


// ---------------------------------------------------------------- ordering

/// Byte-wise lexicographic order (the order of `str` and `String`).
pub open spec fn bytes_leq(a: Seq<u8>, b: Seq<u8>) -> bool
    decreases a.len(),
{
    if a.len() == 0 {
        true
    } else if b.len() == 0 {
        false
    } else if a[0] != b[0] {
        a[0] < b[0]
    } else {
        bytes_leq(a.drop_first(), b.drop_first())
    }
}

/// The order of strings: byte-wise on their UTF-8 encodings.
pub open spec fn text_leq(a: Seq<char>, b: Seq<char>) -> bool {
    bytes_leq(utf8(a), utf8(b))
}

/// `text_leq` as a relation value.
pub open spec fn text_order() -> spec_fn(Seq<char>, Seq<char>) -> bool {
    |a: Seq<char>, b: Seq<char>| text_leq(a, b)
}

proof fn lemma_bytes_leq_reflexive(a: Seq<u8>)
    ensures
        bytes_leq(a, a),
    decreases a.len(),
{
    if a.len() > 0 {
        lemma_bytes_leq_reflexive(a.drop_first());
    }
}

proof fn lemma_bytes_leq_antisymmetric(a: Seq<u8>, b: Seq<u8>)
    requires
        bytes_leq(a, b),
        bytes_leq(b, a),
    ensures
        a == b,
    decreases a.len(),
{
    if a.len() == 0 {
        assert(b.len() == 0);
        assert(a =~= b);
    } else {
        lemma_bytes_leq_antisymmetric(a.drop_first(), b.drop_first());
        assert(a =~= seq![a[0]] + a.drop_first());
        assert(b =~= seq![b[0]] + b.drop_first());
    }
}

proof fn lemma_bytes_leq_transitive(a: Seq<u8>, b: Seq<u8>, c: Seq<u8>)
    requires
        bytes_leq(a, b),
        bytes_leq(b, c),
    ensures
        bytes_leq(a, c),
    decreases a.len(),
{
    if a.len() > 0 && b.len() > 0 && c.len() > 0 && a[0] == b[0] && b[0] == c[0] {
        lemma_bytes_leq_transitive(a.drop_first(), b.drop_first(), c.drop_first());
    }
}

proof fn lemma_bytes_leq_total(a: Seq<u8>, b: Seq<u8>)
    ensures
        bytes_leq(a, b) || bytes_leq(b, a),
    decreases a.len(),
{
    if a.len() > 0 && b.len() > 0 && a[0] == b[0] {
        lemma_bytes_leq_total(a.drop_first(), b.drop_first());
    }
}

/// Equal UTF-8 encodings come from equal character sequences.
pub proof fn lemma_utf8_injective(a: Seq<char>, b: Seq<char>)
    requires
        utf8(a) == utf8(b),
    ensures
        a == b,
{
    encode_utf8_decode_utf8(a);
    encode_utf8_decode_utf8(b);
}

/// The string order is a total order.
pub proof fn lemma_text_order_total()
    ensures
        vstd::relations::total_ordering(text_order()),
{
    let r = text_order();
    assert forall|x: Seq<char>| #[trigger] r(x, x) by {
        lemma_bytes_leq_reflexive(utf8(x));
    }
    assert forall|x: Seq<char>, y: Seq<char>| #[trigger] r(x, y) && #[trigger] r(y, x) implies x
        == y by {
        lemma_bytes_leq_antisymmetric(utf8(x), utf8(y));
        lemma_utf8_injective(x, y);
    }
    assert forall|x: Seq<char>, y: Seq<char>, z: Seq<char>| #[trigger] r(x, y) && #[trigger] r(
        y,
        z,
    ) implies r(x, z) by {
        lemma_bytes_leq_transitive(utf8(x), utf8(y), utf8(z));
    }
    assert forall|x: Seq<char>, y: Seq<char>| #[trigger] r(x, y) || #[trigger] r(y, x) by {
        lemma_bytes_leq_total(utf8(x), utf8(y));
    }
}

/// Whether `a` sorts before or equal to `b` in byte-wise order.
pub fn bytes_less_or_equal(a: &[u8], b: &[u8]) -> (r: bool)
    ensures
        r == bytes_leq(a@, b@),
{
    let mut i: usize = 0;
    while i < a.len() && i < b.len()
        invariant
            i <= a@.len(),
            i <= b@.len(),
            bytes_leq(a@, b@) == bytes_leq(a@.skip(i as int), b@.skip(i as int)),
        decreases a@.len() - i,
    {
        if a[i] != b[i] {
            return a[i] < b[i];
        }
        assert(a@.skip(i as int).drop_first() =~= a@.skip(i + 1));
        assert(b@.skip(i as int).drop_first() =~= b@.skip(i + 1));
        i = i + 1;
    }
    i == a.len()
}

/// Whether two strings hold the same text.
pub fn same_text(a: &str, b: &str) -> (r: bool)
    ensures
        r == (a@ == b@),
{
    let x = a.as_bytes();
    let y = b.as_bytes();
    let r = bytes_less_or_equal(x, y) && bytes_less_or_equal(y, x);
    proof {
        if r {
            lemma_bytes_leq_antisymmetric(x@, y@);
            lemma_utf8_injective(a@, b@);
        } else if a@ == b@ {
            lemma_bytes_leq_reflexive(x@);
        }
    }
    r
}

/// Whether `a` sorts before or equal to `b`.
pub fn text_less_or_equal(a: &str, b: &str) -> (r: bool)
    ensures
        r == text_leq(a@, b@),
{
    bytes_less_or_equal(a.as_bytes(), b.as_bytes())
}

/// The texts of a sequence of strings.
pub open spec fn texts(items: Seq<String>) -> Seq<Seq<char>> {
    items.map_values(|s: String| s@)
}

/// Copies of `items` in string order (equal strings are interchangeable).
pub fn sort_texts(items: &[String]) -> (sorted: Vec<String>)
    ensures
        texts(sorted@) == texts(items@).sort_by(text_order()),
{
    proof {
        lemma_text_order_total();
    }
    let ghost leq = text_order();
    let mut out: Vec<String> = Vec::new();
    let mut i: usize = 0;
    while i < items.len()
        invariant
            i <= items@.len(),
            vstd::relations::total_ordering(leq),
            leq == text_order(),
            vstd::relations::sorted_by(texts(out@), leq),
            texts(out@).to_multiset() == texts(items@.subrange(0, i as int)).to_multiset(),
        decreases items@.len() - i,
    {
        let item = items[i].clone();
        let mut pos: usize = 0;
        while pos < out.len() && text_less_or_equal(out[pos].as_str(), item.as_str())
            invariant
                pos <= out@.len(),
                forall|k: int| 0 <= k < pos ==> text_leq(#[trigger] out@[k]@, item@),
            decreases out@.len() - pos,
        {
            pos = pos + 1;
        }
        let ghost before = texts(out@);
        proof {
            if pos < out@.len() {
                assert(!text_leq(out@[pos as int]@, item@));
                assert(leq(out@[pos as int]@, item@) || leq(item@, out@[pos as int]@));
                assert(leq(item@, out@[pos as int]@));
            }
        }
        out.insert(pos, item);
        proof {
            assert(texts(out@) =~= before.insert(pos as int, items@[i as int]@));
            vstd::seq_lib::to_multiset_insert(before, pos as int, items@[i as int]@);
            assert(texts(items@.subrange(0, i + 1)) =~= texts(items@.subrange(0, i as int)).push(
                items@[i as int]@,
            ));
            vstd::seq_lib::to_multiset_build(texts(items@.subrange(0, i as int)), items@[i as int]@);
            let t = texts(out@);
            assert forall|a: int, b: int| 0 <= a < b < t.len() implies #[trigger] leq(t[a], t[b]) by {
                if b < pos {
                    assert(t[a] == before[a] && t[b] == before[b]);
                } else if b == pos {
                    assert(t[a] == before[a]);
                } else if a == pos {
                    assert(t[b] == before[b - 1]);
                    if b - 1 > pos {
                        assert(leq(before[pos as int], before[b - 1]));
                    }
                } else if a < pos {
                    assert(t[a] == before[a] && t[b] == before[b - 1]);
                } else {
                    assert(t[a] == before[a - 1] && t[b] == before[b - 1]);
                }
            }
        }
        i = i + 1;
    }
    proof {
        assert(items@.subrange(0, items@.len() as int) =~= items@);
        texts(items@).lemma_sort_by_ensures(leq);
        vstd::seq_lib::lemma_sorted_unique(texts(out@), texts(items@).sort_by(leq), leq);
    }
    out
}


/// A value listed in the string order of a text key.
pub trait TextKeyed {
    /// The key.
    spec fn text_key(&self) -> Seq<char>;

    /// The key, borrowed.
    fn key(&self) -> (k: &str)
        ensures
            k@ == self.text_key(),
    ;
}

/// Whether values are in the string order of their keys.
pub open spec fn in_key_order<T: TextKeyed>(items: Seq<T>) -> bool {
    forall|a: int, b: int|
        0 <= a < b < items.len() ==> text_leq(
            #[trigger] items[a].text_key(),
            #[trigger] items[b].text_key(),
        )
}

/// The values of `items` in the string order of their keys.
pub fn sort_by_key<T: TextKeyed>(items: Vec<T>) -> (sorted: Vec<T>)
    ensures
        in_key_order(sorted@),
        sorted@.to_multiset() == items@.to_multiset(),
{
    broadcast use vstd::seq_lib::group_to_multiset_ensures, vstd::multiset::group_multiset_axioms;

    proof {
        lemma_text_order_total();
    }
    let ghost leq = text_order();
    let ghost all = items@.to_multiset();
    let mut rest = items;
    let mut out: Vec<T> = Vec::new();
    proof {
        assert(out@.to_multiset() =~= vstd::multiset::Multiset::<T>::empty()) by {
            assert(out@.to_multiset().len() == 0);
        }
        assert(vstd::multiset::Multiset::<T>::empty().add(rest@.to_multiset()) =~= all);
    }
    while rest.len() > 0
        invariant
            vstd::relations::total_ordering(leq),
            leq == text_order(),
            in_key_order(out@),
            out@.to_multiset().add(rest@.to_multiset()) == all,
        decreases rest@.len(),
    {
        let ghost before_rest = rest@;
        let item = rest.remove(0);
        let ghost v = item;
        proof {
            assert(before_rest =~= rest@.insert(0, v));
            vstd::seq_lib::to_multiset_insert(rest@, 0, v);
        }
        let mut pos: usize = 0;
        while pos < out.len() && text_less_or_equal(out[pos].key(), item.key())
            invariant
                pos <= out@.len(),
                item == v,
                forall|k: int| 0 <= k < pos ==> text_leq(#[trigger] out@[k].text_key(), v.text_key()),
            decreases out@.len() - pos,
        {
            pos = pos + 1;
        }
        let ghost before = out@;
        proof {
            if pos < out@.len() {
                assert(!text_leq(out@[pos as int].text_key(), v.text_key()));
                assert(leq(out@[pos as int].text_key(), v.text_key()) || leq(
                    v.text_key(),
                    out@[pos as int].text_key(),
                ));
                assert(leq(v.text_key(), out@[pos as int].text_key()));
            }
        }
        out.insert(pos, item);
        proof {
            let t = out@;
            assert(t =~= before.insert(pos as int, v));
            vstd::seq_lib::to_multiset_insert(before, pos as int, v);
            assert(t.to_multiset().add(rest@.to_multiset()) =~= before.to_multiset().add(
                before_rest.to_multiset(),
            ));
            assert forall|a: int, b: int| 0 <= a < b < t.len() implies text_leq(
                #[trigger] t[a].text_key(),
                #[trigger] t[b].text_key(),
            ) by {
                if b < pos {
                    assert(t[a] == before[a] && t[b] == before[b]);
                } else if b == pos {
                    assert(t[a] == before[a]);
                } else if a == pos {
                    assert(t[b] == before[b - 1]);
                    if b - 1 > pos {
                        assert(leq(before[pos as int].text_key(), before[b - 1].text_key()));
                        assert(leq(v.text_key(), before[b - 1].text_key()));
                    }
                } else if a < pos {
                    assert(t[a] == before[a] && t[b] == before[b - 1]);
                    assert(leq(before[a].text_key(), v.text_key()));
                    if b - 1 > pos {
                        assert(leq(before[pos as int].text_key(), before[b - 1].text_key()));
                    }
                    assert(leq(v.text_key(), before[pos as int].text_key()));
                    assert(leq(before[a].text_key(), before[b - 1].text_key()));
                } else {
                    assert(t[a] == before[a - 1] && t[b] == before[b - 1]);
                }
            }
        }
    }
    proof {
        assert(rest@ =~= Seq::<T>::empty());
        assert(out@.to_multiset().add(vstd::multiset::Multiset::<T>::empty()) =~= out@.to_multiset());
    }
    out
}

/// Appends all of `bytes` to `target`.
pub fn push_bytes(target: &mut Vec<u8>, bytes: &[u8])
    ensures
        final(target)@ == old(target)@ + bytes@,
{
    let ghost start = target@;
    let mut i: usize = 0;
    while i < bytes.len()
        invariant
            i <= bytes@.len(),
            target@ =~= start + bytes@.subrange(0, i as int),
        decreases bytes@.len() - i,
    {
        target.push(bytes[i]);
        i = i + 1;
        assert(target@ =~= start + bytes@.subrange(0, i as int));
    }
    assert(bytes@.subrange(0, bytes@.len() as int) =~= bytes@);
}

/// A text has no bytes exactly when it has no characters.
pub proof fn lemma_text_empty_iff(s: Seq<char>)
    ensures
        (utf8(s).len() == 0) <==> (s.len() == 0),
{
    if s.len() > 0 {
        assert(utf8(s) == encode_scalar(s[0] as u32) + encode_utf8(s.drop_first()));
        assert(encode_scalar(s[0] as u32).len() > 0);
    }
}

} // verus!
