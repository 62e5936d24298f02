//! The hierarchical addresses events are published under, and the decimal
//! text they are built from.

use vstd::prelude::*;

verus! {

/// The character of a single decimal digit.
pub open spec fn digit(d: nat) -> char
    recommends
        d < 10,
{
    if d == 0 {
        '0'
    } else if d == 1 {
        '1'
    } else if d == 2 {
        '2'
    } else if d == 3 {
        '3'
    } else if d == 4 {
        '4'
    } else if d == 5 {
        '5'
    } else if d == 6 {
        '6'
    } else if d == 7 {
        '7'
    } else if d == 8 {
        '8'
    } else {
        '9'
    }
}

/// A number in decimal, most significant digit first, without padding.
pub open spec fn decimal(n: nat) -> Seq<char>
    decreases n,
{
    if n < 10 {
        seq![digit(n)]
    } else {
        decimal(n / 10).push(digit(n % 10))
    }
}

/// The prefix of every note address.
pub open spec fn note_prefix() -> Seq<char> {
    seq!['/', 'n', 'o', 't', 'e', '/']
}

/// The prefix of every controller address.
pub open spec fn cc_prefix() -> Seq<char> {
    seq!['/', 'c', 'c', '/']
}

/// `/note/{channel}/{note}`: where Note On and Note Off of one key are
/// published.
pub open spec fn note_address(channel: u8, note: u8) -> Seq<char> {
    note_prefix() + decimal(channel as nat) + seq!['/'] + decimal(note as nat)
}

/// `/cc/{channel}/{controller}`: where the changes of one controller are
/// published.
pub open spec fn cc_address(channel: u8, controller: u8) -> Seq<char> {
    cc_prefix() + decimal(channel as nat) + seq!['/'] + decimal(controller as nat)
}

/// The decimal text of a byte, digit by digit: one, two or three digits.
pub proof fn lemma_decimal_of_byte(n: u8)
    ensures
        n < 10 ==> decimal(n as nat) == seq![digit(n as nat)],
        10 <= n < 100 ==> decimal(n as nat) == seq![digit(n as nat / 10), digit(n as nat % 10)],
        100 <= n ==> decimal(n as nat) == seq![
            digit(n as nat / 100),
            digit((n as nat / 10) % 10),
            digit(n as nat % 10),
        ],
        forall|i: int| 0 <= i < decimal(n as nat).len() ==> #[trigger] decimal(n as nat)[i] != '/',
{
    reveal_with_fuel(decimal, 3);
}

/// Two bytes with the same decimal text are the same byte.
pub proof fn lemma_decimal_injective(a: u8, b: u8)
    requires
        decimal(a as nat) == decimal(b as nat),
    ensures
        a == b,
{
    lemma_decimal_of_byte(a);
    lemma_decimal_of_byte(b);
    let x = decimal(a as nat);
    let y = decimal(b as nat);
    assert(x.len() == y.len());
    assert(x[0] == y[0]);
    if a >= 10 {
        assert(x[1] == y[1]);
    }
    if a >= 100 {
        assert(x[2] == y[2]);
    }
}

/// Two addresses built from the same prefix are equal only if they name the
/// same channel and the same number.
proof fn lemma_same_tail(
    prefix: Seq<char>,
    channel: u8,
    number: u8,
    other_channel: u8,
    other_number: u8,
)
    requires
        prefix + decimal(channel as nat) + seq!['/'] + decimal(number as nat) == prefix + decimal(
            other_channel as nat,
        ) + seq!['/'] + decimal(other_number as nat),
    ensures
        channel == other_channel,
        number == other_number,
{
    let c1 = decimal(channel as nat);
    let c2 = decimal(other_channel as nat);
    let n1 = decimal(number as nat);
    let n2 = decimal(other_number as nat);
    let s1 = prefix + c1 + seq!['/'] + n1;
    let s2 = prefix + c2 + seq!['/'] + n2;
    let p = prefix.len() as int;
    lemma_decimal_of_byte(channel);
    lemma_decimal_of_byte(other_channel);
    lemma_decimal_of_byte(number);
    lemma_decimal_of_byte(other_number);
    // The first slash after the prefix ends the channel in both.
    assert(s1[p + c1.len()] == '/');
    assert(s2[p + c2.len()] == '/');
    if c1.len() < c2.len() {
        assert(s2[p + c1.len()] == c2[c1.len() as int]);
    } else if c2.len() < c1.len() {
        assert(s1[p + c2.len()] == c1[c2.len() as int]);
    }
    assert forall|i: int| 0 <= i < c1.len() implies c1[i] == c2[i] by {
        assert(s1[p + i] == c1[i]);
        assert(s2[p + i] == c2[i]);
    }
    assert(c1 =~= c2);
    lemma_decimal_injective(channel, other_channel);
    // What follows that slash is the number in both.
    let q = p + c1.len() + 1;
    assert(s1.len() == s2.len());
    assert forall|i: int| 0 <= i < n1.len() implies n1[i] == n2[i] by {
        assert(s1[q + i] == n1[i]);
        assert(s2[q + i] == n2[i]);
    }
    assert(n1 =~= n2);
    lemma_decimal_injective(number, other_number);
}

/// Every key and every controller has an address of its own: two note
/// addresses, or two controller addresses, are equal only for the same
/// channel and number, and a note address is never a controller address.
pub proof fn lemma_addresses_apart(channel: u8, number: u8, other_channel: u8, other_number: u8)
    ensures
        note_address(channel, number) == note_address(other_channel, other_number) <==> channel
            == other_channel && number == other_number,
        cc_address(channel, number) == cc_address(other_channel, other_number) <==> channel
            == other_channel && number == other_number,
        note_address(channel, number) != cc_address(other_channel, other_number),
{
    if note_address(channel, number) == note_address(other_channel, other_number) {
        lemma_same_tail(note_prefix(), channel, number, other_channel, other_number);
    }
    if cc_address(channel, number) == cc_address(other_channel, other_number) {
        lemma_same_tail(cc_prefix(), channel, number, other_channel, other_number);
    }
    assert(note_address(channel, number)[1] == 'n');
    assert(cc_address(other_channel, other_number)[1] == 'c');
}

fn push_digit(text: &mut String, d: u8)
    requires
        d < 10,
    ensures
        final(text)@ == old(text)@.push(digit(d as nat)),
{
    proof {
        reveal_strlit("0");
        reveal_strlit("1");
        reveal_strlit("2");
        reveal_strlit("3");
        reveal_strlit("4");
        reveal_strlit("5");
        reveal_strlit("6");
        reveal_strlit("7");
        reveal_strlit("8");
        reveal_strlit("9");
    }
    let glyph = match d {
        0 => "0",
        1 => "1",
        2 => "2",
        3 => "3",
        4 => "4",
        5 => "5",
        6 => "6",
        7 => "7",
        8 => "8",
        _ => "9",
    };
    text.append(glyph);
}

/// Appends a byte in decimal to `text`.
pub fn push_decimal(text: &mut String, n: u8)
    ensures
        final(text)@ == old(text)@ + decimal(n as nat),
{
    if n >= 100 {
        push_digit(text, n / 100);
    }
    if n >= 10 {
        push_digit(text, (n / 10) % 10);
    }
    push_digit(text, n % 10);
    proof {
        lemma_decimal_of_byte(n);
    }
}

/// The address of one key on one channel.
pub fn note_address_text(channel: u8, note: u8) -> (text: String)
    ensures
        text@ == note_address(channel, note),
{
    proof {
        reveal_strlit("/note/");
        reveal_strlit("/");
    }
    let mut text = String::from_str("/note/");
    push_decimal(&mut text, channel);
    text.append("/");
    push_decimal(&mut text, note);
    text
}

/// The address of one controller on one channel.
pub fn cc_address_text(channel: u8, controller: u8) -> (text: String)
    ensures
        text@ == cc_address(channel, controller),
{
    proof {
        reveal_strlit("/cc/");
        reveal_strlit("/");
    }
    let mut text = String::from_str("/cc/");
    push_decimal(&mut text, channel);
    text.append("/");
    push_decimal(&mut text, controller);
    text
}

} // verus!
