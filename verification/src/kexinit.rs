//! The SSH key-exchange announcement (`SSH_MSG_KEXINIT`) as it stands in a TCP payload.
//!
//! A binary packet starts with four length bytes and a padding length; the message
//! number follows, then a cookie and ten lists of names. Each list is a big-endian
//! 32-bit byte count and that many bytes of comma-separated UTF-8.

use vstd::prelude::*;
use vstd::slice::slice_subrange;
use vstd::utf8::{
    decode_utf8, decode_utf8_encode_utf8, encode_utf8, encode_utf8_decode_utf8, encode_utf8_valid_utf8, valid_utf8,
};
use crate::text::{
    join_commas, law_join_then_split, law_split_then_join, split_commas, split_names, texts, utf8_text, Text,
};

verus! {

/// The number of the key-exchange announcement among SSH messages.
pub const SSH_MSG_KEXINIT: u8 = 20;

/// Where the message number stands in a payload.
pub const MESSAGE_NUMBER_AT: usize = 5;

/// Where the lists of names start: behind the message number and the cookie.
pub const LISTS_AT: usize = 22;

/// How many lists of names an announcement holds.
pub const LIST_COUNT: usize = 10;

/// What a peer announced: the key-exchange methods it can do, best liked first.
#[derive(Debug)]
pub struct KexInit {
    kex_algorithms: Vec<String>,
}

impl View for KexInit {
    type V = Seq<Text>;

    closed spec fn view(&self) -> Seq<Text> {
        texts(self.kex_algorithms@)
    }
}

impl Clone for KexInit {
    fn clone(&self) -> (copy: Self)
        ensures
            copy@ == self@,
    {
        let mut kex_algorithms: Vec<String> = Vec::new();
        let mut i: usize = 0;
        while i < self.kex_algorithms.len()
            invariant
                i <= self.kex_algorithms.len(),
                kex_algorithms@ == self.kex_algorithms@.take(i as int),
            decreases self.kex_algorithms.len() - i,
        {
            kex_algorithms.push(self.kex_algorithms[i].clone());
            assert(self.kex_algorithms@.take(i + 1) =~= self.kex_algorithms@.take(i as int).push(
                self.kex_algorithms[i as int],
            ));
            i = i + 1;
        }
        assert(kex_algorithms@ =~= self.kex_algorithms@);
        KexInit { kex_algorithms }
    }
}

impl KexInit {
    /// The announced methods.
    pub(crate) fn kex_algorithms(&self) -> (names: &Vec<String>)
        ensures
            texts(names@) == self@,
    {
        &self.kex_algorithms
    }
}

/// The number that the first four bytes write, the highest byte first.
pub open spec fn be_u32(s: Seq<u8>) -> nat {
    (s[0] as nat) * 0x100_0000 + (s[1] as nat) * 0x1_0000 + (s[2] as nat) * 0x100 + (s[3] as nat)
}

/// The first list of names in `s`, and the bytes behind it.
pub open spec fn name_list(s: Seq<u8>) -> Option<(Seq<Text>, Seq<u8>)> {
    if s.len() < 4 || s.len() - 4 < be_u32(s) {
        None
    } else {
        let bytes = s.subrange(4, 4 + be_u32(s) as int);
        if valid_utf8(bytes) {
            Some((split_commas(decode_utf8(bytes)), s.skip(4 + be_u32(s) as int)))
        } else {
            None
        }
    }
}

/// What is left of `s` once a list was asked for, also where there was none: the count is
/// taken when it is whole, and the bytes are taken when they are all there.
pub open spec fn after_name_list(s: Seq<u8>) -> Seq<u8> {
    if s.len() < 4 {
        s
    } else if s.len() - 4 < be_u32(s) {
        s.skip(4)
    } else {
        s.skip(4 + be_u32(s) as int)
    }
}

/// The first `n` lists of names in `s`, and the bytes behind them.
pub open spec fn name_lists(s: Seq<u8>, n: nat) -> Option<(Seq<Seq<Text>>, Seq<u8>)>
    decreases n,
{
    if n == 0 {
        Some((Seq::empty(), s))
    } else {
        match name_lists(s, (n - 1) as nat) {
            None => None,
            Some((lists, rest)) => match name_list(rest) {
                None => None,
                Some((list, behind)) => Some((lists.push(list), behind)),
            },
        }
    }
}

/// The key-exchange methods that a payload announces, if it is an announcement with all
/// its lists.
pub open spec fn kexinit(payload: Seq<u8>) -> Option<Seq<Text>> {
    if payload.len() < LISTS_AT || payload[MESSAGE_NUMBER_AT as int] != SSH_MSG_KEXINIT {
        None
    } else {
        match name_lists(payload.skip(LISTS_AT as int), LIST_COUNT as nat) {
            None => None,
            Some((lists, _)) => Some(lists[0]),
        }
    }
}

/// Takes a big-endian number off the front of `data`, which stays as it is when it holds
/// fewer than four bytes.
pub fn read_u32(data: &mut &[u8]) -> (value: Option<u32>)
    ensures
        old(data)@.len() < 4 ==> value is None && final(data)@ == old(data)@,
        old(data)@.len() >= 4 ==> value is Some && value->0 == be_u32(old(data)@) && final(data)@
            == old(data)@.skip(4),
        old(data)@.len() >= 4 ==> value->0 == ((old(data)@[0] * 256 + old(data)@[1]) * 256
            + old(data)@[2]) * 256 + old(data)@[3],
{
    if data.len() < 4 {
        return None;
    }
    let value: u32 = (data[0] as u32) * 0x100_0000 + (data[1] as u32) * 0x1_0000 + (data[2] as u32)
        * 0x100 + (data[3] as u32);
    *data = slice_subrange(*data, 4, data.len());
    Some(value)
}

/// Takes a list of names off the front of `data`.
pub fn read_name_list_owned(data: &mut &[u8]) -> (names: Option<Vec<String>>)
    ensures
        names is Some <==> name_list(old(data)@) is Some,
        names matches Some(list) ==> texts(list@) == name_list(old(data)@)->Some_0.0,
        final(data)@ == after_name_list(old(data)@),
{
    let ghost start = data@;
    let len: usize = match read_u32(data) {
        Some(len) => len as usize,
        None => {
            return None;
        },
    };
    if data.len() < len {
        return None;
    }
    let list_bytes = slice_subrange(*data, 0, len);
    *data = slice_subrange(*data, len, data.len());
    assert(list_bytes@ =~= start.subrange(4, 4 + len));
    assert(data@ =~= start.skip(4 + len));
    match utf8_text(list_bytes) {
        Some(list) => Some(split_names(list)),
        None => None,
    }
}

proof fn lemma_no_list_no_lists(s: Seq<u8>, i: nat, n: nat)
    requires
        i <= n,
        name_lists(s, i) is None,
    ensures
        name_lists(s, n) is None,
    decreases n,
{
    if i < n {
        lemma_no_list_no_lists(s, i, (n - 1) as nat);
    }
}

/// Reads an announcement out of a TCP payload.
pub fn parse_ssh_kexinit(payload: &[u8]) -> (kex: Option<KexInit>)
    ensures
        kex is Some <==> kexinit(payload@) is Some,
        kex matches Some(k) ==> k@ == kexinit(payload@)->0,
{
    if payload.len() <= MESSAGE_NUMBER_AT || payload[MESSAGE_NUMBER_AT] != SSH_MSG_KEXINIT {
        return None;
    }
    if payload.len() < LISTS_AT {
        return None;
    }
    let mut data: &[u8] = slice_subrange(payload, LISTS_AT, payload.len());
    let ghost start = payload@.skip(LISTS_AT as int);
    assert(data@ =~= start);
    reveal_with_fuel(name_lists, 2);
    let kex_algorithms: Vec<String> = match read_name_list_owned(&mut data) {
        Some(names) => names,
        None => {
            proof {
                lemma_no_list_no_lists(start, 1, LIST_COUNT as nat);
            }
            return None;
        },
    };
    let mut read: usize = 1;
    while read < LIST_COUNT
        invariant
            1 <= read <= LIST_COUNT,
            start == payload@.skip(LISTS_AT as int),
            payload.len() >= LISTS_AT,
            payload[MESSAGE_NUMBER_AT as int] == SSH_MSG_KEXINIT,
            name_lists(start, read as nat) is Some,
            name_lists(start, read as nat)->Some_0.1 == data@,
            name_lists(start, read as nat)->Some_0.0.len() == read,
            name_lists(start, read as nat)->Some_0.0[0] == texts(kex_algorithms@),
        decreases LIST_COUNT - read,
    {
        if read_name_list_owned(&mut data).is_none() {
            proof {
                lemma_no_list_no_lists(start, (read + 1) as nat, LIST_COUNT as nat);
            }
            return None;
        }
        read = read + 1;
    }
    Some(KexInit { kex_algorithms })
}

proof fn lemma_name_list_extends(s: Seq<u8>, extra: Seq<u8>)
    requires
        name_list(s) is Some,
    ensures
        name_list(s + extra) == Some((name_list(s)->Some_0.0, name_list(s)->Some_0.1 + extra)),
{
    let n = be_u32(s) as int;
    assert(be_u32(s + extra) == n);
    assert((s + extra).subrange(4, 4 + n) =~= s.subrange(4, 4 + n));
    assert((s + extra).skip(4 + n) =~= s.skip(4 + n) + extra);
}

proof fn lemma_name_lists_extend(s: Seq<u8>, extra: Seq<u8>, n: nat)
    requires
        name_lists(s, n) is Some,
    ensures
        name_lists(s + extra, n) == Some(
            (name_lists(s, n)->Some_0.0, name_lists(s, n)->Some_0.1 + extra),
        ),
        name_lists(s, n)->Some_0.0.len() == n,
        name_lists(s, n)->Some_0.1.len() <= s.len(),
    decreases n,
{
    if n > 0 {
        lemma_name_lists_extend(s, extra, (n - 1) as nat);
        lemma_name_list_extends(name_lists(s, (n - 1) as nat)->Some_0.1, extra);
    }
}

/// Bytes behind the last list, such as padding, change nothing.
pub proof fn law_trailing_bytes_ignored(payload: Seq<u8>, extra: Seq<u8>)
    requires
        kexinit(payload) is Some,
    ensures
        kexinit(payload + extra) == kexinit(payload),
{
    let start = payload.skip(LISTS_AT as int);
    lemma_name_lists_extend(start, extra, LIST_COUNT as nat);
    assert((payload + extra).skip(LISTS_AT as int) =~= start + extra);
}

/// An announcement that is cut off before the end of its last list is not read.
pub proof fn law_truncated_not_read(payload: Seq<u8>, len: nat)
    requires
        kexinit(payload) is Some,
        len + name_lists(payload.skip(LISTS_AT as int), LIST_COUNT as nat)->Some_0.1.len() < payload.len(),
    ensures
        kexinit(payload.take(len as int)) is None,
{
    let cut = payload.take(len as int);
    let tail = payload.skip(len as int);
    assert(cut + tail =~= payload);
    if kexinit(cut) is Some {
        lemma_name_lists_extend(cut.skip(LISTS_AT as int), tail, LIST_COUNT as nat);
        assert(cut.skip(LISTS_AT as int) + tail =~= payload.skip(LISTS_AT as int));
    }
}

/// Of everything before the lists only the message number counts: neither the packet
/// length nor the padding length nor the cookie is looked at.
pub proof fn law_only_message_number_counts(a: Seq<u8>, b: Seq<u8>)
    requires
        a.len() == b.len(),
        a.len() > MESSAGE_NUMBER_AT ==> a[MESSAGE_NUMBER_AT as int] == b[MESSAGE_NUMBER_AT as int],
        forall|i: int| LISTS_AT <= i < a.len() ==> #[trigger] a[i] == b[i],
    ensures
        kexinit(a) == kexinit(b),
{
    if a.len() >= LISTS_AT {
        assert(a.skip(LISTS_AT as int) =~= b.skip(LISTS_AT as int));
    }
}

/// The four bytes of a number, the highest byte first.
pub open spec fn be_bytes(n: nat) -> Seq<u8> {
    seq![
        (n / 0x100_0000 % 0x100) as u8,
        (n / 0x1_0000 % 0x100) as u8,
        (n / 0x100 % 0x100) as u8,
        (n % 0x100) as u8,
    ]
}

/// A list of names on the wire.
pub open spec fn name_list_bytes(names: Seq<Text>) -> Seq<u8> {
    be_bytes(encode_utf8(join_commas(names)).len()) + encode_utf8(join_commas(names))
}

/// Lists of names on the wire, one behind the other.
pub open spec fn name_lists_bytes(lists: Seq<Seq<Text>>) -> Seq<u8>
    decreases lists.len(),
{
    if lists.len() == 0 {
        Seq::empty()
    } else {
        name_lists_bytes(lists.drop_last()) + name_list_bytes(lists.last())
    }
}

/// Whether the wire format can hold a list: it has at least one name, no name holds a
/// comma, and the count of its bytes fits in 32 bits.
pub open spec fn writable(names: Seq<Text>) -> bool {
    &&& names.len() >= 1
    &&& forall|i: int| 0 <= i < names.len() ==> !(#[trigger] names[i]).contains(',')
    &&& encode_utf8(join_commas(names)).len() < 0x1_0000_0000
}

proof fn lemma_be_bytes(n: nat, behind: Seq<u8>)
    requires
        n < 0x1_0000_0000,
    ensures
        be_u32(be_bytes(n) + behind) == n,
{
    let s = be_bytes(n) + behind;
    assert(s[0] == n / 0x100_0000 % 0x100);
    assert(s[1] == n / 0x1_0000 % 0x100);
    assert(s[2] == n / 0x100 % 0x100);
    assert(s[3] == n % 0x100);
    assert(n == (n / 0x100) * 0x100 + n % 0x100);
    assert(n / 0x100 == (n / 0x1_0000) * 0x100 + n / 0x100 % 0x100);
    assert(n / 0x1_0000 == (n / 0x100_0000) * 0x100 + n / 0x1_0000 % 0x100);
    assert(n / 0x100_0000 % 0x100 == n / 0x100_0000);
}

/// A list of names that was written is read as it was written, whatever stands behind it,
/// and nothing of what stands behind it is taken.
pub proof fn law_list_read_gives_back_written(names: Seq<Text>, behind: Seq<u8>)
    requires
        names.len() >= 1,
        forall|i: int| 0 <= i < names.len() ==> !(#[trigger] names[i]).contains(','),
        encode_utf8(join_commas(names)).len() < 0x1_0000_0000,
    ensures
        name_list(name_list_bytes(names) + behind) == Some((names, behind)),
        after_name_list(name_list_bytes(names) + behind) == behind,
{
    let text = join_commas(names);
    let bytes = encode_utf8(text);
    let n = bytes.len();
    let s = name_list_bytes(names) + behind;
    assert(s =~= be_bytes(n) + (bytes + behind));
    lemma_be_bytes(n, bytes + behind);
    assert(s.subrange(4, 4 + n as int) =~= bytes);
    assert(s.skip(4 + n as int) =~= behind);
    assert(valid_utf8(bytes)) by {
        encode_utf8_valid_utf8(text);
    }
    assert(decode_utf8(bytes) == text) by {
        encode_utf8_decode_utf8(text);
    }
    assert(split_commas(text) == names) by {
        law_join_then_split(names);
    }
}

proof fn lemma_read_written_lists(lists: Seq<Seq<Text>>, behind: Seq<u8>)
    requires
        forall|i: int| 0 <= i < lists.len() ==> writable(#[trigger] lists[i]),
    ensures
        name_lists(name_lists_bytes(lists) + behind, lists.len()) == Some((lists, behind)),
    decreases lists.len(),
{
    if lists.len() == 0 {
        assert(name_lists_bytes(lists) + behind =~= behind);
        assert(lists =~= Seq::empty());
    } else {
        let shorter = lists.drop_last();
        let last = name_list_bytes(lists.last());
        assert forall|i: int| 0 <= i < shorter.len() implies writable(#[trigger] shorter[i]) by {
            assert(shorter[i] == lists[i]);
        }
        lemma_read_written_lists(shorter, last + behind);
        assert(name_lists_bytes(lists) + behind =~= name_lists_bytes(shorter) + (last + behind));
        law_list_read_gives_back_written(lists.last(), behind);
        assert(shorter.push(lists.last()) =~= lists);
    }
}

/// An announcement that a peer wrote is read as it was written: whatever lengths and
/// cookie stand before the lists and whatever stands behind them, its first list comes
/// back, name by name.
pub proof fn law_read_gives_back_written(
    lengths: Seq<u8>,
    cookie: Seq<u8>,
    lists: Seq<Seq<Text>>,
    behind: Seq<u8>,
)
    requires
        lengths.len() == MESSAGE_NUMBER_AT,
        cookie.len() == 16,
        lists.len() == LIST_COUNT,
        forall|i: int| 0 <= i < lists.len() ==> (#[trigger] lists[i]).len() >= 1,
        forall|i: int, j: int|
            0 <= i < lists.len() && 0 <= j < lists[i].len() ==> !(#[trigger] lists[i][j]).contains(','),
        forall|i: int|
            0 <= i < lists.len() ==> encode_utf8(join_commas(#[trigger] lists[i])).len()
                < 0x1_0000_0000,
    ensures
        kexinit(lengths.push(SSH_MSG_KEXINIT) + cookie + name_lists_bytes(lists) + behind) == Some(
            lists[0],
        ),
{
    let payload = lengths.push(SSH_MSG_KEXINIT) + cookie + name_lists_bytes(lists) + behind;
    assert(payload[MESSAGE_NUMBER_AT as int] == SSH_MSG_KEXINIT);
    assert(payload.skip(LISTS_AT as int) =~= name_lists_bytes(lists) + behind);
    lemma_read_written_lists(lists, behind);
}

/// Four bytes write a number with the highest byte first, whatever stands behind them.
pub proof fn law_highest_byte_first(a: u8, b: u8, c: u8, d: u8, behind: Seq<u8>)
    ensures
        be_u32(seq![a, b, c, d] + behind) == ((a * 256 + b) * 256 + c) * 256 + d,
{
    let s = seq![a, b, c, d] + behind;
    assert(s[0] == a && s[1] == b && s[2] == c && s[3] == d);
}

/// A list is read exactly when its count is whole, all its bytes are there and they are valid
/// UTF-8, and nothing else is asked of it. What is taken off the front is the count, and the
/// bytes where they are all there.
pub proof fn law_list_read_when_whole(a: u8, b: u8, c: u8, d: u8, behind: Seq<u8>)
    ensures
        ({
            let s = seq![a, b, c, d] + behind;
            let n = ((a * 256 + b) * 256 + c) * 256 + d;
            &&& name_list(s) is Some <==> n <= behind.len() && valid_utf8(behind.take(n))
            &&& name_list(s) matches Some((names, rest)) ==> {
                &&& names == split_commas(decode_utf8(behind.take(n)))
                &&& rest == behind.skip(n)
            }
            &&& n <= behind.len() ==> after_name_list(s) == behind.skip(n)
            &&& n > behind.len() ==> after_name_list(s) == behind
        }),
{
    let s = seq![a, b, c, d] + behind;
    let n = ((a * 256 + b) * 256 + c) * 256 + d;
    law_highest_byte_first(a, b, c, d, behind);
    if n <= behind.len() {
        assert(s.subrange(4, 4 + n) =~= behind.take(n));
        assert(s.skip(4 + n) =~= behind.skip(n));
    } else {
        assert(s.skip(4) =~= behind);
    }
}

/// Without a whole count no list is read, and nothing is taken.
pub proof fn law_no_list_without_count(s: Seq<u8>)
    requires
        s.len() < 4,
    ensures
        name_list(s) is None,
        after_name_list(s) == s,
{
}

proof fn lemma_bytes_of_number(s: Seq<u8>)
    requires
        s.len() >= 4,
    ensures
        be_bytes(be_u32(s)) == s.take(4),
        be_u32(s) < 0x1_0000_0000,
{
    let n = be_u32(s);
    let (a, b, c, d) = (s[0] as nat, s[1] as nat, s[2] as nat, s[3] as nat);
    assert(n == ((a * 256 + b) * 256 + c) * 256 + d);
    assert(n / 0x100 == (a * 256 + b) * 256 + c && n % 0x100 == d);
    assert(n / 0x1_0000 == a * 256 + b && n / 0x100 % 0x100 == c);
    assert(n / 0x100_0000 == a && n / 0x1_0000 % 0x100 == b);
    assert(n / 0x100_0000 % 0x100 == a);
    assert(be_bytes(n) =~= s.take(4));
}

proof fn lemma_read_list_was_written(s: Seq<u8>)
    requires
        name_list(s) is Some,
    ensures
        writable(name_list(s)->Some_0.0),
        s == name_list_bytes(name_list(s)->Some_0.0) + name_list(s)->Some_0.1,
{
    let n = be_u32(s);
    let bytes = s.subrange(4, 4 + n as int);
    let text = decode_utf8(bytes);
    let names = split_commas(text);
    let rest = s.skip(4 + n as int);
    lemma_bytes_of_number(s);
    assert(encode_utf8(text) == bytes) by {
        decode_utf8_encode_utf8(bytes);
    }
    assert(bytes.len() == n);
    law_split_then_join(text);
    assert(name_list_bytes(names) == s.take(4) + bytes);
    assert(s =~= s.take(4) + bytes + rest);
}

proof fn lemma_read_lists_were_written(s: Seq<u8>, n: nat)
    requires
        name_lists(s, n) is Some,
    ensures
        name_lists(s, n)->Some_0.0.len() == n,
        forall|i: int| 0 <= i < n ==> writable(#[trigger] name_lists(s, n)->Some_0.0[i]),
        s == name_lists_bytes(name_lists(s, n)->Some_0.0) + name_lists(s, n)->Some_0.1,
    decreases n,
{
    let (lists, rest) = name_lists(s, n)->Some_0;
    if n == 0 {
        assert(name_lists_bytes(lists) + rest =~= s);
    } else {
        let (before, middle) = name_lists(s, (n - 1) as nat)->Some_0;
        lemma_read_lists_were_written(s, (n - 1) as nat);
        lemma_read_list_was_written(middle);
        assert(lists.drop_last() =~= before);
        assert forall|i: int| 0 <= i < n implies writable(#[trigger] lists[i]) by {
            if i < n - 1 {
                assert(lists[i] == before[i]);
            }
        }
        assert(name_lists_bytes(lists) + rest =~= name_lists_bytes(before) + (name_list_bytes(
            lists.last(),
        ) + rest));
    }
}

/// Only what a peer wrote is read: a payload that is read has the message number of an
/// announcement, and behind the cookie ten lists as they are written, the first of which is
/// what was read.
pub proof fn law_only_written_is_read(payload: Seq<u8>)
    requires
        kexinit(payload) is Some,
    ensures
        payload.len() >= 22,
        payload[5] == 20,
        exists|lists: Seq<Seq<Text>>, behind: Seq<u8>|
            payload.skip(22) == #[trigger] (name_lists_bytes(lists) + behind) && lists.len() == 10
                && kexinit(payload)->Some_0 == lists[0],
{
    let start = payload.skip(LISTS_AT as int);
    lemma_read_lists_were_written(start, LIST_COUNT as nat);
    let (lists, behind) = name_lists(start, LIST_COUNT as nat)->Some_0;
    assert(payload.skip(22) == name_lists_bytes(lists) + behind);
}

} // verus!
