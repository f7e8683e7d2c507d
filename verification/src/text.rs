//! Texts: decimal numbers, endpoints and comma-separated lists.

use vstd::prelude::*;
use vstd::utf8::{decode_utf8, valid_utf8};

verus! {

/// The characters of a string.
pub type Text = Seq<char>;

/// The texts of a list of strings.
pub open spec fn texts(list: Seq<String>) -> Seq<Text> {
    list.map_values(|s: String| s@)
}

/// `String::push` puts the given character at the end of the string.
pub assume_specification[ String::push ](string: &mut String, ch: char)
    ensures
        final(string)@ == old(string)@.push(ch),
;

/// Calls `std::str::from_utf8`: it succeeds exactly on valid UTF-8 and then gives the
/// characters that the bytes encode.
#[verifier::external_body]
pub(crate) fn utf8_text(bytes: &[u8]) -> (text: Option<&str>)
    ensures
        text is Some <==> valid_utf8(bytes@),
        text matches Some(t) ==> t@ == decode_utf8(bytes@),
{
    std::str::from_utf8(bytes).ok()
}

/// The character of a decimal digit.
pub open spec fn digit_char(d: nat) -> char {
    ('0' as nat + d) as char
}

/// The decimal notation of a number, without leading zeros.
pub open spec fn decimal(n: nat) -> Text
    decreases n,
{
    if n < 10 {
        seq![digit_char(n)]
    } else {
        decimal(n / 10).push(digit_char(n % 10))
    }
}

/// An address and a port as one text, such as `192.0.2.1:22`.
pub open spec fn endpoint(ip: Text, port: u16) -> Text {
    ip.push(':') + decimal(port as nat)
}

/// Appends the decimal notation of `n`.
pub fn push_decimal(out: &mut String, n: u16)
    ensures
        final(out)@ == old(out)@ + decimal(n as nat),
    decreases n,
{
    if n >= 10 {
        push_decimal(out, n / 10);
    }
    let d: u8 = (n % 10) as u8;
    let c: char = (48u8 + d) as char;
    assert(c == digit_char(d as nat));
    out.push(c);
}

/// The decimal notation of `n`.
pub fn decimal_text(n: u16) -> (s: String)
    ensures
        s@ == decimal(n as nat),
{
    let mut s = String::new();
    push_decimal(&mut s, n);
    s
}

/// Writes `ip:port`.
pub fn endpoint_text(ip: &str, port: u16) -> (s: String)
    ensures
        s@ == endpoint(ip@, port),
{
    let mut s = ip.to_owned();
    s.push(':');
    push_decimal(&mut s, port);
    s
}

/// The pieces of a text between its commas. A text without a comma is one piece, also
/// when it is empty.
pub open spec fn split_commas(s: Text) -> Seq<Text>
    decreases s.len(),
{
    if s.len() == 0 {
        seq![s]
    } else {
        let before = split_commas(s.drop_last());
        if s.last() == ',' {
            before.push(Seq::empty())
        } else {
            before.drop_last().push(before.last().push(s.last()))
        }
    }
}

/// The pieces put together again, with a comma between neighbours.
pub open spec fn join_commas(pieces: Seq<Text>) -> Text
    decreases pieces.len(),
{
    if pieces.len() == 0 {
        Seq::empty()
    } else if pieces.len() == 1 {
        pieces[0]
    } else {
        join_commas(pieces.drop_last()).push(',') + pieces.last()
    }
}

proof fn lemma_split_nonempty(s: Text)
    ensures
        split_commas(s).len() >= 1,
    decreases s.len(),
{
    if s.len() > 0 {
        lemma_split_nonempty(s.drop_last());
    }
}

/// Splits a text at its commas.
pub fn split_names(list: &str) -> (names: Vec<String>)
    ensures
        texts(names@) == split_commas(list@),
{
    let mut names: Vec<String> = Vec::new();
    let mut current = String::new();
    assert(current@ =~= list@.take(0));
    assert(texts(names@).push(current@) =~= split_commas(list@.take(0)));
    for c in it: list.chars()
        invariant
            it.seq() == list@,
            texts(names@).push(current@) == split_commas(list@.take(it.index() as int)),
    {
        let ghost i = it.index() as int;
        assert(list@.take(i + 1).drop_last() =~= list@.take(i));
        let ghost before = texts(names@).push(current@);
        assert(before.drop_last() =~= texts(names@));
        if c == ',' {
            names.push(current);
            current = String::new();
            assert(texts(names@) =~= before);
        } else {
            current.push(c);
        }
    }
    assert(list@.take(list@.len() as int) =~= list@);
    let ghost before = texts(names@);
    names.push(current);
    assert(texts(names@) =~= before.push(current@));
    names
}

/// Splitting loses nothing: the pieces hold no comma, and joined again they are the text.
pub proof fn law_split_then_join(s: Text)
    ensures
        split_commas(s).len() >= 1,
        forall|i: int| 0 <= i < split_commas(s).len() ==> !(#[trigger] split_commas(s)[i]).contains(','),
        join_commas(split_commas(s)) == s,
    decreases s.len(),
{
    if s.len() > 0 {
        let shorter = s.drop_last();
        law_split_then_join(shorter);
        let before = split_commas(shorter);
        let pieces = split_commas(s);
        assert(s =~= shorter.push(s.last()));
        if s.last() == ',' {
            assert(pieces.drop_last() =~= before);
            assert(join_commas(pieces) =~= s);
        } else {
            let last = before.last();
            assert(pieces.drop_last() =~= before.drop_last());
            assert forall|i: int| 0 <= i < pieces.len() implies !(#[trigger] pieces[i]).contains(',') by {
                if i == pieces.len() - 1 {
                    assert forall|j: int| 0 <= j < pieces[i].len() implies pieces[i][j] != ',' by {
                        if j < last.len() {
                            assert(!before[i].contains(','));
                            assert(last[j] == pieces[i][j]);
                        }
                    }
                } else {
                    assert(pieces[i] == before[i]);
                }
            }
            assert(join_commas(pieces) =~= join_commas(before).push(s.last()));
        }
    }
}

proof fn lemma_split_append_plain(s: Text, tail: Text)
    requires
        !tail.contains(','),
    ensures
        split_commas(s + tail) == split_commas(s).drop_last().push(split_commas(s).last() + tail),
    decreases tail.len(),
{
    lemma_split_nonempty(s);
    if tail.len() == 0 {
        assert(s + tail =~= s);
        assert(split_commas(s).last() + tail =~= split_commas(s).last());
        assert(split_commas(s) =~= split_commas(s).drop_last().push(split_commas(s).last()));
    } else {
        let shorter = tail.drop_last();
        assert forall|j: int| 0 <= j < shorter.len() implies shorter[j] != ',' by {
            assert(tail[j] == shorter[j]);
        }
        lemma_split_append_plain(s, shorter);
        assert((s + tail).drop_last() =~= s + shorter);
        assert((s + tail).last() == tail.last());
        let before = split_commas(s + shorter);
        assert(before.drop_last() =~= split_commas(s).drop_last());
        assert(before.last().push(tail.last()) =~= split_commas(s).last() + tail);
    }
}

/// A non-empty list of names without commas comes back from its comma-separated text.
pub proof fn law_join_then_split(pieces: Seq<Text>)
    requires
        pieces.len() >= 1,
        forall|i: int| 0 <= i < pieces.len() ==> !(#[trigger] pieces[i]).contains(','),
    ensures
        split_commas(join_commas(pieces)) == pieces,
    decreases pieces.len(),
{
    let empty: Text = Seq::empty();
    if pieces.len() == 1 {
        lemma_split_append_plain(empty, pieces[0]);
        assert(empty + pieces[0] =~= pieces[0]);
        assert(split_commas(empty).drop_last() =~= Seq::empty());
        assert(pieces =~= Seq::<Text>::empty().push(pieces[0]));
    } else {
        let shorter = pieces.drop_last();
        assert forall|i: int| 0 <= i < shorter.len() implies !(#[trigger] shorter[i]).contains(',') by {
            assert(pieces[i] == shorter[i]);
        }
        law_join_then_split(shorter);
        let head = join_commas(shorter).push(',');
        assert(head.drop_last() =~= join_commas(shorter));
        assert(split_commas(head) == shorter.push(empty));
        lemma_split_append_plain(head, pieces.last());
        assert(split_commas(head).drop_last() =~= shorter);
        assert(empty + pieces.last() =~= pieces.last());
        assert(shorter.push(pieces.last()) =~= pieces);
    }
}

proof fn lemma_decimal_digits(n: nat)
    ensures
        decimal(n).len() >= 1,
        n >= 10 ==> decimal(n).len() >= 2,
        !decimal(n).contains(':'),
    decreases n,
{
    assert forall|j: int| 0 <= j < decimal(n).len() implies decimal(n)[j] != ':' by {
        if n >= 10 {
            lemma_decimal_digits(n / 10);
            if j < decimal(n / 10).len() {
                assert(decimal(n)[j] == decimal(n / 10)[j]);
            }
        }
    }
    if n >= 10 {
        lemma_decimal_digits(n / 10);
    }
}

proof fn lemma_decimal_injective(a: nat, b: nat)
    requires
        decimal(a) == decimal(b),
    ensures
        a == b,
    decreases a,
{
    lemma_decimal_digits(a);
    lemma_decimal_digits(b);
    assert(decimal(a).last() == digit_char(a % 10));
    assert(decimal(b).last() == digit_char(b % 10));
    assert(digit_char(a % 10) as nat == 48 + a % 10);
    assert(digit_char(b % 10) as nat == 48 + b % 10);
    if a >= 10 && b >= 10 {
        assert(decimal(a).drop_last() =~= decimal(a / 10));
        assert(decimal(b).drop_last() =~= decimal(b / 10));
        lemma_decimal_injective(a / 10, b / 10);
    } else if a >= 10 {
        assert(decimal(b).len() == 1);
    } else if b >= 10 {
        assert(decimal(a).len() == 1);
    }
}

/// Two endpoints have the same text only when both address and port agree.
pub proof fn law_endpoint_injective(ip1: Text, port1: u16, ip2: Text, port2: u16)
    requires
        endpoint(ip1, port1) == endpoint(ip2, port2),
    ensures
        ip1 == ip2,
        port1 == port2,
{
    let e = endpoint(ip1, port1);
    let d1 = decimal(port1 as nat);
    let d2 = decimal(port2 as nat);
    lemma_decimal_digits(port1 as nat);
    lemma_decimal_digits(port2 as nat);
    assert(e.len() == ip1.len() + 1 + d1.len());
    assert(endpoint(ip2, port2).len() == ip2.len() + 1 + d2.len());
    assert(e[ip1.len() as int] == ':');
    assert(endpoint(ip2, port2)[ip2.len() as int] == ':');
    if ip1.len() < ip2.len() {
        assert(e[ip2.len() as int] == d1[ip2.len() - ip1.len() - 1]);
    } else if ip2.len() < ip1.len() {
        assert(endpoint(ip2, port2)[ip1.len() as int] == d2[ip1.len() - ip2.len() - 1]);
    }
    assert(ip1 =~= e.take(ip1.len() as int));
    assert(ip2 =~= endpoint(ip2, port2).take(ip2.len() as int));
    assert(d1 =~= e.skip(ip1.len() as int + 1));
    assert(d2 =~= endpoint(ip2, port2).skip(ip2.len() as int + 1));
    lemma_decimal_injective(port1 as nat, port2 as nat);
}

/// A number below ten is written by its one digit; putting a digit behind a number that is
/// not zero multiplies it by ten and adds the digit.
pub proof fn law_decimal_digit_by_digit(n: nat, d: nat)
    requires
        d < 10,
    ensures
        decimal(d).len() == 1,
        decimal(d)[0] as nat == 48 + d,
        n > 0 ==> decimal(10 * n + d).len() == decimal(n).len() + 1,
        n > 0 ==> decimal(10 * n + d).drop_last() == decimal(n),
        n > 0 ==> decimal(10 * n + d).last() as nat == 48 + d,
{
    assert(digit_char(d) as nat == 48 + d);
    if n > 0 {
        assert((10 * n + d) / 10 == n);
        assert((10 * n + d) % 10 == d);
        assert(decimal(10 * n + d).drop_last() =~= decimal(n));
    }
}

/// The text of an endpoint is its address, then a colon, then its port, and nothing more.
pub proof fn law_endpoint_has_address_and_port(ip: Text, port: u16)
    ensures
        endpoint(ip, port).len() == ip.len() + 1 + decimal(port as nat).len(),
        endpoint(ip, port).take(ip.len() as int) == ip,
        endpoint(ip, port)[ip.len() as int] == ':',
        endpoint(ip, port).skip(ip.len() as int + 1) == decimal(port as nat),
{
    assert(endpoint(ip, port).take(ip.len() as int) =~= ip);
    assert(endpoint(ip, port).skip(ip.len() as int + 1) =~= decimal(port as nat));
}

/// What holds no comma is one piece, and behind a comma it is one piece more: the pieces
/// before it stay as they are.
pub proof fn law_split_at_each_comma(before: Text, piece: Text)
    requires
        forall|j: int| 0 <= j < piece.len() ==> #[trigger] piece[j] != ',',
    ensures
        split_commas(piece).len() == 1,
        split_commas(piece)[0] == piece,
        split_commas(before.push(',') + piece).len() == split_commas(before).len() + 1,
        split_commas(before.push(',') + piece).drop_last() == split_commas(before),
        split_commas(before.push(',') + piece).last() == piece,
{
    let empty: Text = Seq::empty();
    let head = before.push(',');
    lemma_split_append_plain(empty, piece);
    assert(empty + piece =~= piece);
    assert(split_commas(empty).last() + piece =~= piece);
    lemma_split_append_plain(head, piece);
    assert(head.drop_last() =~= before);
    assert(split_commas(head) == split_commas(before).push(empty));
    assert(split_commas(head).drop_last() =~= split_commas(before));
    assert(empty + piece =~= piece);
    assert(split_commas(head + piece).drop_last() =~= split_commas(before));
}

/// A list of strings has the text of each string, in the same place.
pub proof fn law_texts_string_by_string(list: Seq<String>)
    ensures
        texts(list).len() == list.len(),
        forall|i: int| 0 <= i < list.len() ==> #[trigger] texts(list)[i] == list[i]@,
{
}

} // verus!
