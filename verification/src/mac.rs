//! MAC addresses: parsing from `xx:xx:xx:xx:xx:xx` strings, display
//! formatting, and generation of random locally-administered addresses.

use vstd::prelude::*;

verus! {

/// A character on which a MAC string splits into groups.
pub open spec fn is_mac_separator(c: char) -> bool {
    c == ':' || c == '-'
}

/// Value of a hexadecimal digit; `0xff` for any character that is not one.
pub open spec fn hex_digit_value(c: char) -> u8 {
    if c == '0' {
        0
    } else if c == '1' {
        1
    } else if c == '2' {
        2
    } else if c == '3' {
        3
    } else if c == '4' {
        4
    } else if c == '5' {
        5
    } else if c == '6' {
        6
    } else if c == '7' {
        7
    } else if c == '8' {
        8
    } else if c == '9' {
        9
    } else if c == 'a' || c == 'A' {
        10
    } else if c == 'b' || c == 'B' {
        11
    } else if c == 'c' || c == 'C' {
        12
    } else if c == 'd' || c == 'D' {
        13
    } else if c == 'e' || c == 'E' {
        14
    } else if c == 'f' || c == 'F' {
        15
    } else {
        0xff
    }
}

/// A hexadecimal digit, upper or lower case.
pub open spec fn is_hex_digit(c: char) -> bool {
    hex_digit_value(c) < 16
}

/// Why one separator-delimited group failed to parse as a byte.
#[derive(Clone, Copy, Debug, PartialEq, Eq, Structural)]
pub enum HexPartFault {
    /// The group holds no characters at all.
    EmptyPart,
    /// The group holds a character that is not a hexadecimal digit.
    NotHexDigit,
    /// The group's digits denote a value above 255.
    ValueTooLarge,
}

/// Base-16 parse of a group's digits, scanning left to right with the
/// value accumulated so far in `acc`: a non-digit character is reported
/// before an overflow at the same position, as `u8::from_str_radix` does.
pub open spec fn hex_digits_parse(g: Seq<char>, acc: u8) -> Result<u8, HexPartFault>
    decreases g.len(),
{
    if g.len() == 0 {
        Ok(acc)
    } else if !is_hex_digit(g[0]) {
        Err(HexPartFault::NotHexDigit)
    } else if acc >= 16 {
        Err(HexPartFault::ValueTooLarge)
    } else {
        hex_digits_parse(g.skip(1), (acc * 16 + hex_digit_value(g[0])) as u8)
    }
}

/// Base-16 parse of one separator-delimited group as one byte.
pub open spec fn hex_group_parse(g: Seq<char>) -> Result<u8, HexPartFault> {
    if g.len() == 0 {
        Err(HexPartFault::EmptyPart)
    } else {
        hex_digits_parse(g, 0)
    }
}

/// The groups of `s`, split on every ':' or '-', exactly as `str::split`
/// yields them: an empty string gives one empty group, and a separator at
/// either end or two adjacent separators give empty groups.
pub open spec fn mac_groups(s: Seq<char>) -> Seq<Seq<char>>
    decreases s.len(),
{
    if s.len() == 0 {
        seq![Seq::<char>::empty()]
    } else if is_mac_separator(s[0]) {
        seq![Seq::<char>::empty()] + mac_groups(s.skip(1))
    } else {
        let rest = mac_groups(s.skip(1));
        seq![seq![s[0]] + rest[0]] + rest.skip(1)
    }
}

/// A string that denotes a MAC address: six groups, each a byte in base 16.
pub open spec fn mac_string_valid(s: Seq<char>) -> bool {
    &&& mac_groups(s).len() == 6
    &&& forall|i: int| 0 <= i < 6 ==> (#[trigger] hex_group_parse(mac_groups(s)[i])) is Ok
}

/// The six bytes a valid MAC string denotes.
pub open spec fn mac_string_value(s: Seq<char>) -> Seq<u8> {
    Seq::new(6, |i: int| hex_group_parse(mac_groups(s)[i])->Ok_0)
}

/// A MAC address whose first byte has the locally-administered bit set
/// and the multicast bit clear.
pub open spec fn is_locally_administered_unicast(m: Seq<u8>) -> bool {
    &&& m.len() == 6
    &&& m[0] & 0x02 == 0x02
    &&& m[0] & 0x01 == 0x00
}

/// Relies on `rand::random`: draws six bytes from the thread-local
/// generator. Nothing is assumed of the values drawn.
#[verifier::external_body]
fn random_six_bytes() -> [u8; 6] {
    rand::random()
}

/// A fresh random MAC address, forced to be locally administered and
/// unicast whatever bytes the generator produced.
pub fn generate_random_mac() -> (m: [u8; 6])
    ensures
        is_locally_administered_unicast(m@),
{
    let mut m = random_six_bytes();
    let a0 = m[0];
    let b0 = (a0 | 0x02) & 0xfe;
    proof {
        assert(b0 & 0x02 == 0x02 && b0 & 0x01 == 0x00) by (bit_vector)
            requires
                b0 == (a0 | 0x02) & 0xfe,
        ;
    }
    m[0] = b0;
    m
}

/// A split yields at least one group, even of the empty string.
proof fn lemma_mac_groups_len_pos(s: Seq<char>)
    ensures
        mac_groups(s).len() >= 1,
    decreases s.len(),
{
    if s.len() != 0 {
        lemma_mac_groups_len_pos(s.skip(1));
    }
}

/// A leading non-separator joins the first group of the rest's split.
proof fn lemma_mac_groups_prepend_nonsep(c: char, s: Seq<char>)
    requires
        !is_mac_separator(c),
    ensures
        mac_groups(seq![c] + s) == seq![seq![c] + mac_groups(s)[0]] + mac_groups(s).skip(1),
{
    let t = seq![c] + s;
    lemma_mac_groups_len_pos(s);
    assert(t.skip(1) =~= s);
    assert(mac_groups(t) =~= seq![seq![c] + mac_groups(s)[0]] + mac_groups(s).skip(1));
}

/// A leading separator opens a fresh empty group before the rest's split.
proof fn lemma_mac_groups_prepend_sep(c: char, s: Seq<char>)
    requires
        is_mac_separator(c),
    ensures
        mac_groups(seq![c] + s) == seq![Seq::<char>::empty()] + mac_groups(s),
{
    let t = seq![c] + s;
    lemma_mac_groups_len_pos(s);
    assert(t.skip(1) =~= s);
    assert(mac_groups(t) =~= seq![Seq::<char>::empty()] + mac_groups(s));
}

/// Base-16 parse of the characters of `s` between positions `a` and `b`.
fn parse_hex_group_chars(s: &str, a: usize, b: usize) -> (r: Result<u8, HexPartFault>)
    requires
        a <= b <= s@.len(),
    ensures
        r == hex_group_parse(s@.subrange(a as int, b as int)),
{
    let ghost g = s@.subrange(a as int, b as int);
    if a == b {
        assert(g.len() == 0);
        return Err(HexPartFault::EmptyPart);
    }
    let mut acc: u8 = 0;
    let mut j: usize = a;
    while j < b
        invariant
            a <= j <= b <= s@.len(),
            a < b,
            g == s@.subrange(a as int, b as int),
            hex_digits_parse(g, 0) == hex_digits_parse(s@.subrange(j as int, b as int), acc),
        decreases b - j,
    {
        let ghost rem = s@.subrange(j as int, b as int);
        proof {
            assert(rem =~= seq![s@[j as int]] + s@.subrange(j as int + 1, b as int));
            assert(rem[0] == s@[j as int]);
            assert(rem.skip(1) =~= s@.subrange(j as int + 1, b as int));
        }
        let c = s.get_char(j);
        let v = hex_value_of(c);
        if v >= 16 {
            assert(hex_digits_parse(rem, acc) == Err::<u8, HexPartFault>(HexPartFault::NotHexDigit));
            return Err(HexPartFault::NotHexDigit);
        }
        if acc >= 16 {
            assert(hex_digits_parse(rem, acc) == Err::<u8, HexPartFault>(
                HexPartFault::ValueTooLarge,
            ));
            return Err(HexPartFault::ValueTooLarge);
        }
        acc = acc * 16 + v;
        j = j + 1;
    }
    proof {
        assert(s@.subrange(j as int, b as int) =~= Seq::<char>::empty());
        assert(hex_digits_parse(Seq::<char>::empty(), acc) == Ok::<u8, HexPartFault>(acc));
    }
    Ok(acc)
}

/// Why a string was rejected as a MAC address.
#[derive(Debug, PartialEq, Eq)]
pub enum MacParseError {
    /// Splitting on ':' and '-' gave `group_count` groups instead of six.
    InvalidFormat { group_count: usize },
    /// Group `index` (the first such, as the text `part`) is not a byte
    /// in base 16, for the reason `fault`.
    InvalidHexPart { index: usize, part: String, fault: HexPartFault },
}

/// Parses a `xx:xx:xx:xx:xx:xx` MAC address, with ':' and '-' accepted
/// interchangeably as separators: exactly six groups, each a byte in
/// base 16, or the error that says what was wrong.
pub fn parse_mac_address(s: &str) -> (r: Result<[u8; 6], MacParseError>)
    ensures
        r is Ok <==> mac_string_valid(s@),
        r matches Ok(m) ==> m@ == mac_string_value(s@),
        r matches Err(MacParseError::InvalidFormat { group_count }) ==> mac_groups(s@).len() != 6
            && group_count == mac_groups(s@).len(),
        mac_groups(s@).len() != 6 ==> r matches Err(MacParseError::InvalidFormat { .. }),
        r matches Err(MacParseError::InvalidHexPart { index, part, fault }) ==> {
            &&& mac_groups(s@).len() == 6
            &&& index < 6
            &&& part@ == mac_groups(s@)[index as int]
            &&& hex_group_parse(part@) == Err::<u8, HexPartFault>(fault)
            &&& forall|k: int|
                0 <= k < index ==> (#[trigger] hex_group_parse(mac_groups(s@)[k])) is Ok
        },
{
    let n = s.unicode_len();
    let mut bounds: Vec<(usize, usize)> = Vec::new();
    let mut cur_start: usize = 0;
    let mut i: usize = 0;
    let ghost to_group = |b: (usize, usize)| s@.subrange(b.0 as int, b.1 as int);
    proof {
        lemma_mac_groups_len_pos(s@);
        assert(s@.skip(0) =~= s@);
        assert(Seq::<char>::empty() + mac_groups(s@)[0] =~= mac_groups(s@)[0]);
        assert(s@.subrange(0, 0) =~= Seq::<char>::empty());
        assert(mac_groups(s@) =~= bounds@.map_values(to_group) + seq![
            s@.subrange(0, 0) + mac_groups(s@.skip(0))[0],
        ] + mac_groups(s@.skip(0)).skip(1));
    }
    while i < n
        invariant
            n == s@.len(),
            cur_start <= i <= n,
            to_group == (|b: (usize, usize)| s@.subrange(b.0 as int, b.1 as int)),
            forall|k: int|
                0 <= k < bounds@.len() ==> (#[trigger] bounds@[k]).0 <= bounds@[k].1 <= n,
            mac_groups(s@) == bounds@.map_values(to_group) + seq![
                s@.subrange(cur_start as int, i as int) + mac_groups(s@.skip(i as int))[0],
            ] + mac_groups(s@.skip(i as int)).skip(1),
        decreases n - i,
    {
        proof {
            assert(s@.skip(i as int) =~= seq![s@[i as int]] + s@.skip(i as int + 1));
            lemma_mac_groups_len_pos(s@.skip(i as int + 1));
        }
        let ghost rest = mac_groups(s@.skip(i as int + 1));
        let c = s.get_char(i);
        if c == ':' || c == '-' {
            proof {
                lemma_mac_groups_prepend_sep(s@[i as int], s@.skip(i as int + 1));
                assert((seq![Seq::<char>::empty()] + rest)[0] =~= Seq::<char>::empty());
                assert((seq![Seq::<char>::empty()] + rest).skip(1) =~= rest);
                assert(s@.subrange(cur_start as int, i as int) + Seq::<char>::empty()
                    =~= s@.subrange(cur_start as int, i as int));
            }
            let ghost old_bounds = bounds@;
            bounds.push((cur_start, i));
            proof {
                assert(bounds@.map_values(to_group) =~= old_bounds.map_values(to_group).push(
                    s@.subrange(cur_start as int, i as int),
                ));
                assert(mac_groups(s@) =~= bounds@.map_values(to_group) + seq![
                    s@.subrange(i as int + 1, i as int + 1) + rest[0],
                ] + rest.skip(1));
            }
            cur_start = i + 1;
        } else {
            proof {
                lemma_mac_groups_prepend_nonsep(s@[i as int], s@.skip(i as int + 1));
                assert((seq![seq![s@[i as int]] + rest[0]] + rest.skip(1))[0] == seq![s@[i as int]]
                    + rest[0]);
                assert((seq![seq![s@[i as int]] + rest[0]] + rest.skip(1)).skip(1) =~= rest.skip(
                    1,
                ));
                assert(s@.subrange(cur_start as int, i as int + 1) =~= s@.subrange(
                    cur_start as int,
                    i as int,
                ) + seq![s@[i as int]]);
                assert(s@.subrange(cur_start as int, i as int) + (seq![s@[i as int]] + rest[0])
                    =~= s@.subrange(cur_start as int, i as int + 1) + rest[0]);
                assert(mac_groups(s@) =~= bounds@.map_values(to_group) + seq![
                    s@.subrange(cur_start as int, i as int + 1) + rest[0],
                ] + rest.skip(1));
            }
        }
        i = i + 1;
    }
    proof {
        assert(s@.skip(n as int) =~= Seq::<char>::empty());
        assert(mac_groups(Seq::<char>::empty()) == seq![Seq::<char>::empty()]);
        assert(s@.subrange(cur_start as int, n as int) + Seq::<char>::empty() =~= s@.subrange(
            cur_start as int,
            n as int,
        ));
        assert(seq![Seq::<char>::empty()].skip(1) =~= Seq::<Seq<char>>::empty());
    }
    let ghost old_bounds = bounds@;
    bounds.push((cur_start, n));
    proof {
        assert(bounds@.map_values(to_group) =~= old_bounds.map_values(to_group).push(s@.subrange(
            cur_start as int,
            n as int,
        )));
        assert(mac_groups(s@) =~= bounds@.map_values(to_group));
        assert(mac_groups(s@).len() == bounds@.len());
        assert(forall|k: int|
            0 <= k < bounds@.len() ==> mac_groups(s@)[k] == s@.subrange(
                (#[trigger] bounds@[k]).0 as int,
                bounds@[k].1 as int,
            ));
    }
    if bounds.len() != 6 {
        return Err(MacParseError::InvalidFormat { group_count: bounds.len() });
    }
    let mut out: [u8; 6] = [0u8; 6];
    let mut idx: usize = 0;
    while idx < 6
        invariant
            idx <= 6,
            bounds@.len() == 6,
            mac_groups(s@).len() == 6,
            out@.len() == 6,
            forall|k: int|
                0 <= k < 6 ==> (#[trigger] bounds@[k]).0 <= bounds@[k].1 <= s@.len(),
            forall|k: int|
                0 <= k < 6 ==> mac_groups(s@)[k] == s@.subrange(
                    (#[trigger] bounds@[k]).0 as int,
                    bounds@[k].1 as int,
                ),
            forall|k: int|
                0 <= k < idx ==> (#[trigger] hex_group_parse(mac_groups(s@)[k])) is Ok,
            forall|k: int|
                0 <= k < idx ==> out@[k] == hex_group_parse(#[trigger] mac_groups(s@)[k])->Ok_0,
        decreases 6 - idx,
    {
        let (a, b) = bounds[idx];
        match parse_hex_group_chars(s, a, b) {
            Ok(v) => {
                out[idx] = v;
            },
            Err(fault) => {
                let part = s.substring_char(a, b).to_owned();
                return Err(MacParseError::InvalidHexPart { index: idx, part, fault });
            },
        }
        idx = idx + 1;
    }
    proof {
        assert(out@ =~= mac_string_value(s@));
    }
    Ok(out)
}

/// Value of one hexadecimal digit character, `0xff` for any other.
fn hex_value_of(c: char) -> (r: u8)
    ensures
        r == hex_digit_value(c),
{
    if c == '0' {
        0
    } else if c == '1' {
        1
    } else if c == '2' {
        2
    } else if c == '3' {
        3
    } else if c == '4' {
        4
    } else if c == '5' {
        5
    } else if c == '6' {
        6
    } else if c == '7' {
        7
    } else if c == '8' {
        8
    } else if c == '9' {
        9
    } else if c == 'a' || c == 'A' {
        10
    } else if c == 'b' || c == 'B' {
        11
    } else if c == 'c' || c == 'C' {
        12
    } else if c == 'd' || c == 'D' {
        13
    } else if c == 'e' || c == 'E' {
        14
    } else if c == 'f' || c == 'F' {
        15
    } else {
        0xff
    }
}

/// The lowercase hexadecimal digit for a value below 16.
pub open spec fn hex_digit_char(v: u8) -> char
    recommends
        v < 16,
{
    if v == 0 {
        '0'
    } else if v == 1 {
        '1'
    } else if v == 2 {
        '2'
    } else if v == 3 {
        '3'
    } else if v == 4 {
        '4'
    } else if v == 5 {
        '5'
    } else if v == 6 {
        '6'
    } else if v == 7 {
        '7'
    } else if v == 8 {
        '8'
    } else if v == 9 {
        '9'
    } else if v == 10 {
        'a'
    } else if v == 11 {
        'b'
    } else if v == 12 {
        'c'
    } else if v == 13 {
        'd'
    } else if v == 14 {
        'e'
    } else {
        'f'
    }
}

/// One byte as two lowercase hexadecimal digits.
pub open spec fn byte_hex_chars(b: u8) -> Seq<char> {
    seq![hex_digit_char(b / 16), hex_digit_char(b % 16)]
}

/// The display form of a MAC address: lowercase hexadecimal, two digits
/// per byte, the bytes joined with colons.
pub open spec fn mac_display(m: Seq<u8>) -> Seq<char>
    decreases m.len(),
{
    if m.len() == 0 {
        Seq::empty()
    } else if m.len() == 1 {
        byte_hex_chars(m[0])
    } else {
        byte_hex_chars(m[0]) + seq![':'] + mac_display(m.skip(1))
    }
}

/// A one-character string slice holding the lowercase digit of `v`.
fn hex_char_str(v: u8) -> (r: &'static str)
    requires
        v < 16,
    ensures
        r@ == seq![hex_digit_char(v)],
{
    proof {
        reveal_strlit("0");
        reveal_strlit("1");
        reveal_strlit("2");
        reveal_strlit("3");
        reveal_strlit("4");
        reveal_strlit("5");
        reveal_strlit("6");
        reveal_strlit("7");
        reveal_strlit("8");
        reveal_strlit("9");
        reveal_strlit("a");
        reveal_strlit("b");
        reveal_strlit("c");
        reveal_strlit("d");
        reveal_strlit("e");
        reveal_strlit("f");
    }
    let r = if v == 0 {
        "0"
    } else if v == 1 {
        "1"
    } else if v == 2 {
        "2"
    } else if v == 3 {
        "3"
    } else if v == 4 {
        "4"
    } else if v == 5 {
        "5"
    } else if v == 6 {
        "6"
    } else if v == 7 {
        "7"
    } else if v == 8 {
        "8"
    } else if v == 9 {
        "9"
    } else if v == 10 {
        "a"
    } else if v == 11 {
        "b"
    } else if v == 12 {
        "c"
    } else if v == 13 {
        "d"
    } else if v == 14 {
        "e"
    } else {
        "f"
    };
    proof {
        assert(r@ =~= seq![hex_digit_char(v)]);
    }
    r
}

/// Appends the two hexadecimal digits of one byte.
fn append_byte_hex(out: &mut String, b: u8)
    ensures
        final(out)@ == old(out)@ + byte_hex_chars(b),
{
    let hi = b >> 4;
    let lo = b & 0x0f;
    proof {
        assert(hi == b / 16 && lo == b % 16 && hi < 16 && lo < 16) by (bit_vector)
            requires
                hi == b >> 4 && lo == b & 0x0f,
        ;
    }
    out.append(hex_char_str(hi));
    out.append(hex_char_str(lo));
    proof {
        assert(old(out)@ + seq![hex_digit_char(b / 16)] + seq![hex_digit_char(b % 16)]
            =~= old(out)@ + byte_hex_chars(b));
    }
}

/// Joining with a colon on the right: the display of a MAC with its last
/// byte taken off, a colon, and the last byte's digits.
proof fn lemma_mac_display_snoc(m: Seq<u8>)
    requires
        m.len() >= 2,
    ensures
        mac_display(m) == mac_display(m.drop_last()) + seq![':'] + byte_hex_chars(m.last()),
    decreases m.len(),
{
    if m.len() == 2 {
        assert(m.skip(1) =~= seq![m[1]]);
        assert(m.drop_last() =~= seq![m[0]]);
        assert(mac_display(m) =~= mac_display(m.drop_last()) + seq![':'] + byte_hex_chars(
            m.last(),
        ));
    } else {
        lemma_mac_display_snoc(m.skip(1));
        assert(m.skip(1).drop_last() =~= m.drop_last().skip(1));
        assert(m.skip(1).last() == m.last());
        assert(mac_display(m) == byte_hex_chars(m[0]) + seq![':'] + mac_display(m.skip(1)));
        assert(mac_display(m.drop_last()) == byte_hex_chars(m[0]) + seq![':'] + mac_display(
            m.drop_last().skip(1),
        ));
        assert(mac_display(m) =~= mac_display(m.drop_last()) + seq![':'] + byte_hex_chars(
            m.last(),
        ));
    }
}

/// The display form of a MAC address: `aa:bb:cc:dd:ee:ff`.
pub fn format_mac(mac: &[u8; 6]) -> (r: String)
    ensures
        r@ == mac_display(mac@),
{
    let mut out = String::new();
    append_byte_hex(&mut out, mac[0]);
    proof {
        assert(mac@.take(1) =~= seq![mac@[0]]);
        assert(out@ =~= mac_display(mac@.take(1)));
    }
    let mut i: usize = 1;
    while i < 6
        invariant
            1 <= i <= 6,
            out@ == mac_display(mac@.take(i as int)),
        decreases 6 - i,
    {
        let ghost prev = out@;
        out.append(":");
        append_byte_hex(&mut out, mac[i]);
        proof {
            reveal_strlit(":");
            assert(":"@ =~= seq![':']);
            lemma_mac_display_snoc(mac@.take(i as int + 1));
            assert(mac@.take(i as int + 1).drop_last() =~= mac@.take(i as int));
            assert(mac@.take(i as int + 1).last() == mac@[i as int]);
            assert(out@ =~= mac_display(mac@.take(i as int + 1)));
        }
        i = i + 1;
    }
    proof {
        assert(mac@.take(6) =~= mac@);
    }
    out
}

/// The digits of one byte form a group that parses back to that byte and
/// holds no separator.
proof fn lemma_byte_group_parses(b: u8)
    ensures
        hex_group_parse(byte_hex_chars(b)) == Ok::<u8, HexPartFault>(b),
{
    let g = byte_hex_chars(b);
    let hi = (b / 16) as u8;
    let lo = (b % 16) as u8;
    assert(hi < 16 && lo < 16);
    assert(hex_digit_value(hex_digit_char(hi)) == hi);
    assert(hex_digit_value(hex_digit_char(lo)) == lo);
    assert(g.skip(1) =~= seq![hex_digit_char(lo)]);
    assert(g.skip(1).skip(1) =~= Seq::<char>::empty());
    assert(hi * 16 + lo == b);
    assert(hex_digits_parse(Seq::<char>::empty(), b) == Ok::<u8, HexPartFault>(b));
    assert(g.skip(1)[0] == hex_digit_char(lo));
    assert((hi * 16 + hex_digit_value(g.skip(1)[0])) as u8 == b);
    assert(hex_digits_parse(g.skip(1), hi) == Ok::<u8, HexPartFault>(b));
    assert(hex_digits_parse(g, 0) == Ok::<u8, HexPartFault>(b));
}

/// Splitting the display form of at least one byte gives exactly one
/// two-digit group per byte.
proof fn lemma_mac_display_groups(m: Seq<u8>)
    requires
        m.len() >= 1,
    ensures
        mac_groups(mac_display(m)) == Seq::new(m.len(), |i: int| byte_hex_chars(m[i])),
    decreases m.len(),
{
    let c1 = hex_digit_char(m[0] / 16);
    let c2 = hex_digit_char(m[0] % 16);
    assert(!is_mac_separator(c1) && !is_mac_separator(c2));
    if m.len() == 1 {
        assert(mac_display(m) == byte_hex_chars(m[0]));
        assert(seq![c2] + Seq::<char>::empty() =~= seq![c2]);
        lemma_mac_groups_prepend_nonsep(c2, Seq::<char>::empty());
        assert(mac_groups(seq![c2]) =~= seq![seq![c2]]);
        assert(byte_hex_chars(m[0]) =~= seq![c1] + seq![c2]);
        lemma_mac_groups_prepend_nonsep(c1, seq![c2]);
        assert(mac_groups(mac_display(m)) =~= Seq::new(m.len(), |i: int| byte_hex_chars(m[i])));
    } else {
        lemma_mac_display_groups(m.skip(1));
        let rest = mac_display(m.skip(1));
        let t2 = seq![':'] + rest;
        let t1 = seq![c2] + t2;
        let t0 = seq![c1] + t1;
        assert(mac_display(m) =~= t0);
        lemma_mac_groups_prepend_sep(':', rest);
        assert(mac_groups(t2) == seq![Seq::<char>::empty()] + mac_groups(rest));
        lemma_mac_groups_prepend_nonsep(c2, t2);
        assert(mac_groups(t2)[0] =~= Seq::<char>::empty());
        assert(seq![c2] + mac_groups(t2)[0] =~= seq![c2]);
        assert(mac_groups(t2).skip(1) =~= mac_groups(rest));
        assert(mac_groups(t1) =~= seq![seq![c2]] + mac_groups(rest));
        lemma_mac_groups_prepend_nonsep(c1, t1);
        assert(mac_groups(t1)[0] =~= seq![c2]);
        assert(seq![c1] + mac_groups(t1)[0] =~= byte_hex_chars(m[0]));
        assert(mac_groups(t1).skip(1) =~= mac_groups(rest));
        assert(mac_groups(t0) =~= seq![byte_hex_chars(m[0])] + mac_groups(rest));
        assert(mac_groups(mac_display(m)) =~= Seq::new(m.len(), |i: int| byte_hex_chars(m[i])));
    }
}

/// Round trip: the display form of any six bytes is a valid MAC string
/// and parses back to exactly those bytes.
pub proof fn lemma_display_parse_round_trip(m: Seq<u8>)
    requires
        m.len() == 6,
    ensures
        mac_string_valid(mac_display(m)),
        mac_string_value(mac_display(m)) == m,
{
    lemma_mac_display_groups(m);
    assert forall|i: int| 0 <= i < 6 implies (#[trigger] hex_group_parse(
        mac_groups(mac_display(m))[i],
    )) is Ok by {
        lemma_byte_group_parses(m[i]);
    }
    assert forall|i: int| 0 <= i < 6 implies mac_string_value(mac_display(m))[i] == m[i] by {
        lemma_byte_group_parses(m[i]);
    }
    assert(mac_string_value(mac_display(m)) =~= m);
}

} // verus!
