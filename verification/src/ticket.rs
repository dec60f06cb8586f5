//! The invite ticket codec.
//!
//! A ticket names a topic and its peers: a 32-byte topic id and a list of
//! 32-byte node keys.  On the wire it is a JSON object
//! `{"topic":"<hex>","nodes":["<hex>",...]}` with 64 lowercase hex digits
//! per id, encoded as base32 without padding and lowercased; decoding is
//! case-insensitive.  Serialization and parsing of the JSON shape are
//! implemented and proved here; the base32 layer is the outside
//! `data_encoding` crate behind trusted wrappers.

use vstd::prelude::*;

use crate::ascii::{
    all_ascii, append_bytes, ascii_chars_of, ascii_to_string, copy_range, lemma_ascii_chars_encode,
    lower_byte, lower_bytes, to_lower, to_upper, upper_byte, upper_bytes,
};
use crate::errors::Error;
use crate::hex::{
    all_hex, hex_bytes_of, hex_decode, hex_decode_strict, hex_encode, hex_of,
    lemma_hex_bytes_of_hex_of, lemma_hex_of_digits, lemma_hex_of_lower_ok, lower_hex_ok,
};

verus! {

use vstd::string::StringExecFns;
use vstd::utf8::encode_utf8;

/// Ghost view of a ticket.
pub ghost struct TicketV {
    pub topic: Seq<u8>,
    pub nodes: Seq<Seq<u8>>,
}

/// An invite ticket: the topic id and the peers to dial, each a 32-byte
/// identifier.  By convention `nodes[0]` is the topic owner.
pub struct Ticket {
    pub topic: Vec<u8>,
    pub nodes: Vec<Vec<u8>>,
}

impl View for Ticket {
    type V = TicketV;

    open spec fn view(&self) -> TicketV {
        TicketV { topic: self.topic@, nodes: self.nodes.deep_view() }
    }
}

/// Whether 32 bytes form a valid public node key.  The judgment belongs
/// to the transport's key algebra; it depends on the bytes alone.
pub uninterp spec fn is_node_key(b: Seq<u8>) -> bool;

/// Relies on iroh's `PublicKey::from_bytes`: whether the 32 bytes are a
/// valid public node key is a function of the bytes alone.
#[verifier::external_body]
fn check_node_key(b: &Vec<u8>) -> (r: bool)
    requires
        b@.len() == 32,
    ensures
        r == is_node_key(b@),
{
    match <&[u8; 32]>::try_from(b.as_slice()) {
        Ok(arr) => iroh::PublicKey::from_bytes(arr).is_ok(),
        Err(_) => false,
    }
}

/// Ids are 32 bytes long and every node id is a valid key.
pub open spec fn ticket_wf(t: TicketV) -> bool {
    &&& t.topic.len() == 32
    &&& forall|i: int|
        0 <= i < t.nodes.len() ==> (#[trigger] t.nodes[i]).len() == 32 && is_node_key(t.nodes[i])
}

/// The bytes `{"topic":"`.
pub open spec fn json_prefix() -> Seq<u8> {
    seq![123u8, 34u8, 116u8, 111u8, 112u8, 105u8, 99u8, 34u8, 58u8, 34u8]
}

/// The bytes `","nodes":[`.
pub open spec fn json_mid() -> Seq<u8> {
    seq![34u8, 44u8, 34u8, 110u8, 111u8, 100u8, 101u8, 115u8, 34u8, 58u8, 91u8]
}

/// The bytes `]}`.
pub open spec fn json_suffix() -> Seq<u8> {
    seq![93u8, 125u8]
}

/// One node entry: its hex digits in quotes.
pub open spec fn entry_bytes(node: Seq<u8>) -> Seq<u8> {
    seq![34u8] + hex_of(node) + seq![34u8]
}

/// The node entries, comma-separated.
pub open spec fn entries_bytes(nodes: Seq<Seq<u8>>) -> Seq<u8>
    decreases nodes.len(),
{
    if nodes.len() == 0 {
        Seq::empty()
    } else if nodes.len() == 1 {
        entry_bytes(nodes[0])
    } else {
        entry_bytes(nodes[0]) + seq![44u8] + entries_bytes(nodes.drop_first())
    }
}

/// The JSON serialization of a ticket.
pub open spec fn spec_ser(t: TicketV) -> Seq<u8> {
    json_prefix() + hex_of(t.topic) + json_mid() + entries_bytes(t.nodes) + json_suffix()
}

/// Appending one node appends one entry (with its separator).
proof fn lemma_entries_snoc(ns: Seq<Seq<u8>>, x: Seq<u8>)
    ensures
        entries_bytes(ns.push(x)) == if ns.len() == 0 {
            entry_bytes(x)
        } else {
            entries_bytes(ns) + seq![44u8] + entry_bytes(x)
        },
    decreases ns.len(),
{
    let p = ns.push(x);
    if ns.len() == 0 {
        assert(p.len() == 1);
        assert(p[0] == x);
        assert(entries_bytes(p) == entry_bytes(x));
    } else {
        assert(p.len() >= 2);
        assert(p[0] == ns[0]);
        assert(p.drop_first() =~= ns.drop_first().push(x));
        lemma_entries_snoc(ns.drop_first(), x);
        if ns.len() == 1 {
            assert(entries_bytes(p) == entry_bytes(ns[0]) + seq![44u8] + entry_bytes(x));
            assert(entries_bytes(ns) == entry_bytes(ns[0]));
        } else {
            assert(entries_bytes(p) == entry_bytes(ns[0]) + seq![44u8] + (entries_bytes(
                ns.drop_first(),
            ) + seq![44u8] + entry_bytes(x)));
            assert(entries_bytes(ns) == entry_bytes(ns[0]) + seq![44u8] + entries_bytes(
                ns.drop_first(),
            ));
            assert(entry_bytes(ns[0]) + seq![44u8] + (entries_bytes(ns.drop_first()) + seq![44u8]
                + entry_bytes(x)) =~= entries_bytes(ns) + seq![44u8] + entry_bytes(x));
        }
    }
}

/// Every node id in the list is a valid key.
pub open spec fn nodes_keys_ok(nodes: Seq<Seq<u8>>) -> bool {
    forall|i: int| 0 <= i < nodes.len() ==> is_node_key(#[trigger] nodes[i])
}

/// The closing bytes `]}` stand at `i` and end the input.
pub open spec fn parse_close(s: Seq<u8>, i: int) -> bool {
    i + 2 == s.len() && s[i] == 93 && s[i + 1] == 125
}

/// Parse one or more node entries starting at `i`, expecting the closing
/// bytes right after the last entry.
pub open spec fn spec_parse_entries(s: Seq<u8>, i: int) -> Option<Seq<Seq<u8>>>
    decreases s.len() - i,
{
    if i < 0 || i + 68 > s.len() {
        None
    } else if !(s[i] == 34 && s[i + 65] == 34 && lower_hex_ok(s.subrange(i + 1, i + 65))) {
        None
    } else {
        let node = hex_bytes_of(s.subrange(i + 1, i + 65));
        if parse_close(s, i + 66) {
            Some(seq![node])
        } else if s[i + 66] == 44 {
            match spec_parse_entries(s, i + 67) {
                Some(rest) => Some(seq![node] + rest),
                None => None,
            }
        } else {
            None
        }
    }
}

/// Parse a whole ticket: the fixed tokens, the topic id, the node list.
pub open spec fn spec_parse(s: Seq<u8>) -> Option<TicketV> {
    if s.len() >= 87 && s.subrange(0, 10) == json_prefix() && lower_hex_ok(s.subrange(10, 74))
        && s.subrange(74, 85) == json_mid() {
        let topic = hex_bytes_of(s.subrange(10, 74));
        if parse_close(s, 85) {
            Some(TicketV { topic, nodes: Seq::empty() })
        } else {
            match spec_parse_entries(s, 85) {
                Some(nodes) => Some(TicketV { topic, nodes }),
                None => None,
            }
        }
    } else {
        None
    }
}

/// Total length of the serialized node entries.
proof fn lemma_entries_len(nodes: Seq<Seq<u8>>)
    requires
        forall|k: int| 0 <= k < nodes.len() ==> (#[trigger] nodes[k]).len() == 32,
    ensures
        nodes.len() == 0 ==> entries_bytes(nodes).len() == 0,
        nodes.len() > 0 ==> entries_bytes(nodes).len() == 67 * nodes.len() - 1,
    decreases nodes.len(),
{
    if nodes.len() > 0 {
        lemma_hex_of_digits(nodes[0]);
        if nodes.len() > 1 {
            assert(forall|k: int|
                0 <= k < nodes.drop_first().len() ==> (#[trigger] nodes.drop_first()[k]).len()
                    == 32);
            lemma_entries_len(nodes.drop_first());
        }
    }
}

/// Parsing the serialized entries of a non-empty node list yields the
/// list.
proof fn lemma_parse_entries_at(s: Seq<u8>, i: int, nodes: Seq<Seq<u8>>)
    requires
        nodes.len() > 0,
        forall|k: int| 0 <= k < nodes.len() ==> (#[trigger] nodes[k]).len() == 32,
        0 <= i <= s.len(),
        s.subrange(i, s.len() as int) == entries_bytes(nodes) + json_suffix(),
    ensures
        spec_parse_entries(s, i) == Some(nodes),
    decreases nodes.len(),
{
    let tail = s.subrange(i, s.len() as int);
    let h0 = hex_of(nodes[0]);
    lemma_hex_of_digits(nodes[0]);
    lemma_hex_of_lower_ok(nodes[0]);
    lemma_entries_len(nodes);
    assert(tail.len() == entries_bytes(nodes).len() + 2);
    assert(s.len() - i == 67 * nodes.len() + 1);
    assert(forall|k: int| 0 <= k < tail.len() ==> #[trigger] tail[k] == s[i + k]);
    if nodes.len() == 1 {
        assert(entries_bytes(nodes) == entry_bytes(nodes[0]));
        assert(tail =~= seq![34u8] + h0 + seq![34u8] + json_suffix());
    } else {
        assert(entries_bytes(nodes) == entry_bytes(nodes[0]) + seq![44u8] + entries_bytes(
            nodes.drop_first(),
        ));
    }
    assert(s[i] == tail[0]);
    assert(tail[0] == 34);
    assert(s[i + 65] == tail[65]);
    assert(tail[65] == 34);
    assert(s.subrange(i + 1, i + 65) =~= h0) by {
        assert(forall|k: int| 0 <= k < 64 ==> #[trigger] h0[k] == tail[1 + k]);
    }
    assert(lower_hex_ok(s.subrange(i + 1, i + 65)));
    lemma_hex_bytes_of_hex_of(nodes[0]);
    assert(hex_bytes_of(s.subrange(i + 1, i + 65)) == nodes[0]);
    assert(i + 68 <= s.len());
    if nodes.len() == 1 {
        assert(parse_close(s, i + 66)) by {
            assert(tail[66] == 93);
            assert(tail[67] == 125);
        }
        assert(spec_parse_entries(s, i) == Some(seq![nodes[0]]));
        assert(seq![nodes[0]] =~= nodes);
    } else {
        let rest = nodes.drop_first();
        assert(tail[66] == 44);
        assert(s[i + 66] == 44);
        assert(!parse_close(s, i + 66));
        assert(forall|k: int| 0 <= k < rest.len() ==> (#[trigger] rest[k]).len() == 32);
        lemma_entries_len(rest);
        assert(s.subrange(i + 67, s.len() as int) =~= entries_bytes(rest) + json_suffix()) by {
            assert(forall|k: int|
                0 <= k < s.len() - i - 67 ==> #[trigger] s.subrange(i + 67, s.len() as int)[k]
                    == tail[67 + k]);
            assert(forall|k: int|
                0 <= k < entries_bytes(rest).len() + 2 ==> #[trigger] (entries_bytes(rest)
                    + json_suffix())[k] == tail[67 + k]);
        }
        lemma_parse_entries_at(s, i + 67, rest);
        assert(spec_parse_entries(s, i) == Some(seq![nodes[0]] + rest));
        assert(seq![nodes[0]] + rest =~= nodes);
    }
}

/// Parsing the serialization of any well-shaped ticket yields the
/// ticket: the codec's round-trip law at the JSON layer.
pub proof fn lemma_parse_of_ser(t: TicketV)
    requires
        t.topic.len() == 32,
        forall|i: int| 0 <= i < t.nodes.len() ==> (#[trigger] t.nodes[i]).len() == 32,
    ensures
        spec_parse(spec_ser(t)) == Some(t),
{
    let s = spec_ser(t);
    let h = hex_of(t.topic);
    lemma_hex_of_digits(t.topic);
    lemma_hex_of_lower_ok(t.topic);
    lemma_entries_len(t.nodes);
    let e = entries_bytes(t.nodes);
    assert(s.len() == 87 + e.len());
    assert(s.subrange(0, 10) =~= json_prefix());
    assert(s.subrange(10, 74) =~= h);
    assert(s.subrange(74, 85) =~= json_mid());
    lemma_hex_bytes_of_hex_of(t.topic);
    assert(hex_bytes_of(s.subrange(10, 74)) == t.topic);
    if t.nodes.len() == 0 {
        assert(s.len() == 87);
        assert(parse_close(s, 85)) by {
            assert(s[85] == json_suffix()[0]);
            assert(s[86] == json_suffix()[1]);
        }
        assert(spec_parse(s) == Some(TicketV { topic: t.topic, nodes: Seq::empty() }));
        assert(Seq::<Seq<u8>>::empty() =~= t.nodes);
        assert(TicketV { topic: t.topic, nodes: Seq::empty() } == t);
    } else {
        assert(s.len() >= 87 + 66);
        assert(!parse_close(s, 85));
        assert(s.subrange(85, s.len() as int) =~= e + json_suffix());
        lemma_parse_entries_at(s, 85, t.nodes);
        assert(spec_parse(s) == Some(TicketV { topic: t.topic, nodes: t.nodes }));
        assert(TicketV { topic: t.topic, nodes: t.nodes } == t);
    }
}

/// A successful entry parse reproduces the bytes it consumed: from `i`
/// to the end the input is exactly the parsed entries' serialization
/// followed by the closing bytes.
proof fn lemma_ser_entries_at(s: Seq<u8>, i: int, nodes: Seq<Seq<u8>>)
    requires
        0 <= i <= s.len(),
        spec_parse_entries(s, i) == Some(nodes),
    ensures
        forall|k: int| 0 <= k < nodes.len() ==> (#[trigger] nodes[k]).len() == 32,
        s.subrange(i, s.len() as int) == entries_bytes(nodes) + json_suffix(),
    decreases s.len() - i,
{
    assert(i + 68 <= s.len());
    assert(s[i] == 34 && s[i + 65] == 34 && lower_hex_ok(s.subrange(i + 1, i + 65)));
    let slice = s.subrange(i + 1, i + 65);
    let node = hex_bytes_of(slice);
    crate::hex::lemma_hex_bytes_len(slice);
    assert(node.len() == 32);
    crate::hex::lemma_hex_of_hex_bytes_of(slice);
    assert(hex_of(node) == slice);
    let tail = s.subrange(i, s.len() as int);
    assert(forall|k: int| 0 <= k < tail.len() ==> #[trigger] tail[k] == s[i + k]);
    if parse_close(s, i + 66) {
        assert(nodes == seq![node]);
        assert(entries_bytes(nodes) == entry_bytes(node));
        assert(s.len() == i + 68);
        assert(tail =~= entry_bytes(node) + json_suffix()) by {
            assert(forall|k: int| 0 <= k < 64 ==> #[trigger] slice[k] == s[i + 1 + k]);
        }
    } else {
        assert(s[i + 66] == 44);
        match spec_parse_entries(s, i + 67) {
            Some(rest) => {
                lemma_ser_entries_at(s, i + 67, rest);
                assert(nodes == seq![node] + rest);
                assert(nodes.len() == 1 + rest.len());
                assert(nodes[0] == node);
                assert(nodes.drop_first() =~= rest);
                assert(rest.len() >= 1) by {
                    assert(i + 67 + 68 <= s.len());
                }
                assert(entries_bytes(nodes) == entry_bytes(node) + seq![44u8] + entries_bytes(
                    rest,
                ));
                let tail_rest = s.subrange(i + 67, s.len() as int);
                assert(tail_rest == entries_bytes(rest) + json_suffix());
                assert(forall|k: int|
                    0 <= k < tail_rest.len() ==> #[trigger] tail_rest[k] == s[i + 67 + k]);
                assert(tail =~= entry_bytes(node) + seq![44u8] + (entries_bytes(rest)
                    + json_suffix())) by {
                    assert(forall|k: int| 0 <= k < 64 ==> #[trigger] slice[k] == s[i + 1 + k]);
                }
                assert(entry_bytes(node) + seq![44u8] + (entries_bytes(rest) + json_suffix())
                    =~= entries_bytes(nodes) + json_suffix());
            },
            None => {
                assert(false);
            },
        }
    }
}

/// A successful parse reproduces its input: the parser accepts exactly
/// the serializations of well-shaped tickets.
pub proof fn lemma_ser_of_parse(s: Seq<u8>, tv: TicketV)
    requires
        spec_parse(s) == Some(tv),
    ensures
        tv.topic.len() == 32,
        forall|k: int| 0 <= k < tv.nodes.len() ==> (#[trigger] tv.nodes[k]).len() == 32,
        s == spec_ser(tv),
{
    assert(s.len() >= 87 && s.subrange(0, 10) == json_prefix() && lower_hex_ok(
        s.subrange(10, 74),
    ) && s.subrange(74, 85) == json_mid());
    let hslice = s.subrange(10, 74);
    crate::hex::lemma_hex_bytes_len(hslice);
    crate::hex::lemma_hex_of_hex_bytes_of(hslice);
    assert(tv.topic == hex_bytes_of(hslice));
    assert(hex_of(tv.topic) == hslice);
    assert(forall|k: int| 0 <= k < 10 ==> #[trigger] s[k] == json_prefix()[k]);
    assert(forall|k: int| 0 <= k < 64 ==> #[trigger] hslice[k] == s[10 + k]);
    assert(forall|k: int| 0 <= k < 11 ==> #[trigger] s[74 + k] == json_mid()[k]);
    let head = json_prefix() + hex_of(tv.topic) + json_mid();
    assert(head.len() == 85);
    assert(forall|k: int| 0 <= k < 85 ==> #[trigger] head[k] == s[k]) by {
        assert(forall|k: int| 0 <= k < 10 ==> #[trigger] head[k] == json_prefix()[k]);
        assert(forall|k: int| 10 <= k < 74 ==> #[trigger] head[k] == hslice[k - 10]);
        assert(forall|k: int| 74 <= k < 85 ==> #[trigger] head[k] == json_mid()[k - 74]);
    }
    if parse_close(s, 85) {
        assert(tv.nodes == Seq::<Seq<u8>>::empty());
        assert(entries_bytes(tv.nodes) == Seq::<u8>::empty());
        assert(s.len() == 87);
        assert(spec_ser(tv) =~= head + json_suffix());
        assert(s =~= head + json_suffix());
    } else {
        match spec_parse_entries(s, 85) {
            Some(nodes) => {
                lemma_ser_entries_at(s, 85, nodes);
                assert(tv.nodes == nodes);
                let tail = s.subrange(85, s.len() as int);
                assert(tail == entries_bytes(nodes) + json_suffix());
                assert(forall|k: int| 0 <= k < tail.len() ==> #[trigger] tail[k] == s[85 + k]);
                assert(spec_ser(tv) =~= head + tail);
                assert(s =~= head + tail);
            },
            None => {
                assert(false);
            },
        }
    }
}

impl Ticket {
    /// Serialize this ticket to its JSON bytes.
    pub fn to_bytes(&self) -> (r: Vec<u8>)
        ensures
            r@ == spec_ser(self@),
    {
        let mut out: Vec<u8> = Vec::new();
        out.push(123u8);
        out.push(34u8);
        out.push(116u8);
        out.push(111u8);
        out.push(112u8);
        out.push(105u8);
        out.push(99u8);
        out.push(34u8);
        out.push(58u8);
        out.push(34u8);
        proof {
            assert(out@ =~= json_prefix());
        }
        let th = hex_encode(self.topic.as_slice());
        append_bytes(&mut out, &th);
        out.push(34u8);
        out.push(44u8);
        out.push(34u8);
        out.push(110u8);
        out.push(111u8);
        out.push(100u8);
        out.push(101u8);
        out.push(115u8);
        out.push(34u8);
        out.push(58u8);
        out.push(91u8);
        proof {
            assert(out@ =~= json_prefix() + hex_of(self@.topic) + json_mid());
        }
        let ghost head = json_prefix() + hex_of(self@.topic) + json_mid();
        let n = self.nodes.len();
        let mut i: usize = 0;
        proof {
            assert(entries_bytes(self@.nodes.subrange(0, 0)) =~= Seq::<u8>::empty());
            assert(out@ =~= head + entries_bytes(self@.nodes.subrange(0, 0)));
        }
        while i < n
            invariant
                n == self@.nodes.len(),
                0 <= i <= n,
                head == json_prefix() + hex_of(self@.topic) + json_mid(),
                out@ == head + entries_bytes(self@.nodes.subrange(0, i as int)),
            decreases n - i,
        {
            if i > 0 {
                out.push(44u8);
            }
            out.push(34u8);
            let h = hex_encode(self.nodes[i].as_slice());
            append_bytes(&mut out, &h);
            out.push(34u8);
            proof {
                let pre = self@.nodes.subrange(0, i as int);
                let cur = self@.nodes.subrange(0, i + 1 as int);
                assert(cur =~= pre.push(self@.nodes[i as int]));
                lemma_entries_snoc(pre, self@.nodes[i as int]);
                assert(self.nodes@[i as int]@ == self@.nodes[i as int]);
                if i > 0 {
                    assert(out@ =~= head + (entries_bytes(pre) + seq![44u8] + entry_bytes(
                        self@.nodes[i as int],
                    )));
                } else {
                    assert(pre.len() == 0);
                    assert(out@ =~= head + entry_bytes(self@.nodes[i as int]));
                }
                assert(out@ =~= head + entries_bytes(cur));
            }
            i = i + 1;
        }
        out.push(93u8);
        out.push(125u8);
        proof {
            assert(self@.nodes.subrange(0, n as int) =~= self@.nodes);
            assert(out@ =~= spec_ser(self@));
        }
        out
    }

    /// Parse JSON ticket bytes.  Succeeds exactly on the canonical
    /// serialization of a ticket whose node ids are all valid keys.
    pub fn from_bytes(s: &[u8]) -> (r: Result<Ticket, Error>)
        ensures
            r matches Ok(t) ==> spec_parse(s@) == Some(t@) && ticket_wf(t@),
            r is Err ==> (match spec_parse(s@) {
                Some(tv) => !nodes_keys_ok(tv.nodes),
                None => true,
            }),
    {
        let n = s.len();
        if n < 87 {
            return Err(Error::MalformedTicket(String::from_str("ticket payload is too short")));
        }
        let prefix_ok = s[0] == 123 && s[1] == 34 && s[2] == 116 && s[3] == 111 && s[4] == 112
            && s[5] == 105 && s[6] == 99 && s[7] == 34 && s[8] == 58 && s[9] == 34;
        if !prefix_ok {
            proof {
                if s@.subrange(0, 10) == json_prefix() {
                    assert(forall|k: int|
                        0 <= k < 10 ==> #[trigger] s@[k] == s@.subrange(0, 10)[k]);
                    assert(s@[0] == 123 && s@[1] == 34 && s@[2] == 116 && s@[3] == 111 && s@[4]
                        == 112 && s@[5] == 105 && s@[6] == 99 && s@[7] == 34 && s@[8] == 58
                        && s@[9] == 34);
                }
            }
            return Err(Error::MalformedTicket(String::from_str("ticket envelope is malformed")));
        }
        proof {
            assert(s@.subrange(0, 10) =~= json_prefix());
        }
        let tslice = copy_range(s, 10, 74);
        let topic = match hex_decode_strict(tslice.as_slice()) {
            Some(v) => v,
            None => {
                return Err(Error::MalformedTicket(String::from_str("topic id is not lowercase hex")));
            },
        };
        proof {
            crate::hex::lemma_hex_bytes_len(s@.subrange(10, 74));
        }
        let mid_ok = s[74] == 34 && s[75] == 44 && s[76] == 34 && s[77] == 110 && s[78] == 111
            && s[79] == 100 && s[80] == 101 && s[81] == 115 && s[82] == 34 && s[83] == 58 && s[84]
            == 91;
        if !mid_ok {
            proof {
                if s@.subrange(74, 85) == json_mid() {
                    assert(forall|k: int|
                        0 <= k < 11 ==> #[trigger] s@[74 + k] == s@.subrange(74, 85)[k]);
                    assert(s@[74] == 34 && s@[75] == 44 && s@[76] == 34 && s@[77] == 110 && s@[78]
                        == 111 && s@[79] == 100 && s@[80] == 101 && s@[81] == 115 && s@[82] == 34
                        && s@[83] == 58 && s@[84] == 91);
                }
            }
            return Err(Error::MalformedTicket(String::from_str("ticket envelope is malformed")));
        }
        proof {
            assert(s@.subrange(74, 85) =~= json_mid());
        }
        if s[85] == 93 {
            if n == 87 && s[86] == 125 {
                let t = Ticket { topic, nodes: Vec::new() };
                proof {
                    assert(parse_close(s@, 85));
                    assert(t@.nodes =~= Seq::<Seq<u8>>::empty());
                    assert(spec_parse(s@) == Some(t@));
                }
                return Ok(t);
            } else {
                proof {
                    assert(!parse_close(s@, 85));
                    assert(spec_parse_entries(s@, 85) is None);
                }
                return Err(Error::MalformedTicket(String::from_str("ticket envelope is malformed")));
            }
        }
        let mut nodes: Vec<Vec<u8>> = Vec::new();
        let mut i: usize = 85;
        proof {
            assert(nodes.deep_view() =~= Seq::<Seq<u8>>::empty());
            assert(spec_parse_entries(s@, 85) == (match spec_parse_entries(s@, 85) {
                Some(rest) => Some(nodes.deep_view() + rest),
                None => None::<Seq<Seq<u8>>>,
            })) by {
                match spec_parse_entries(s@, 85) {
                    Some(rest) => {
                        assert(nodes.deep_view() + rest =~= rest);
                    },
                    None => {},
                }
            }
        }
        while i <= n - 68
            invariant
                n == s@.len(),
                n >= 87,
                85 <= i <= n,
                s@.subrange(0, 10) == json_prefix(),
                lower_hex_ok(s@.subrange(10, 74)),
                s@.subrange(74, 85) == json_mid(),
                topic@ == hex_bytes_of(s@.subrange(10, 74)),
                topic@.len() == 32,
                s@[85] != 93,
                forall|k: int|
                    0 <= k < nodes.deep_view().len() ==> (#[trigger] nodes.deep_view()[k]).len()
                        == 32 && is_node_key(nodes.deep_view()[k]),
                spec_parse_entries(s@, 85) == (match spec_parse_entries(s@, i as int) {
                    Some(rest) => Some(nodes.deep_view() + rest),
                    None => None::<Seq<Seq<u8>>>,
                }),
            decreases n - i,
        {
            if s[i] != 34 {
                return Err(Error::MalformedTicket(String::from_str("ticket envelope is malformed")));
            }
            let hs = copy_range(s, i + 1, i + 65);
            let node = match hex_decode_strict(hs.as_slice()) {
                Some(v) => v,
                None => {
                    return Err(Error::MalformedTicket(String::from_str(
                        "node id is not lowercase hex",
                    )));
                },
            };
            if s[i + 65] != 34 {
                return Err(Error::MalformedTicket(String::from_str("ticket envelope is malformed")));
            }
            proof {
                crate::hex::lemma_hex_bytes_len(s@.subrange(i as int + 1, i as int + 65));
                assert(node@.len() == 32);
            }
            let ghost entry_node = hex_bytes_of(s@.subrange(i as int + 1, i as int + 65));
            let valid = check_node_key(&node);
            if !valid {
                proof {
                    lemma_err_invalid_key(s@, i as int, nodes.deep_view(), entry_node);
                }
                return Err(Error::MalformedTicket(String::from_str("node id is not a valid key")));
            }
            proof {
                assert(hs@ == s@.subrange(i as int + 1, i as int + 65));
                assert(node@ == entry_node);
            }
            let ghost pre_nodes = nodes.deep_view();
            nodes.push(node);
            proof {
                assert(nodes.deep_view() =~~= pre_nodes.push(entry_node));
            }
            let sep = s[i + 66];
            if sep == 44 {
                proof {
                    assert(!parse_close(s@, i as int + 66));
                    assert(spec_parse_entries(s@, i as int) == (match spec_parse_entries(
                        s@,
                        i as int + 67,
                    ) {
                        Some(rest2) => Some(seq![entry_node] + rest2),
                        None => None::<Seq<Seq<u8>>>,
                    }));
                    match spec_parse_entries(s@, i as int + 67) {
                        Some(rest2) => {
                            assert(pre_nodes + (seq![entry_node] + rest2) =~= nodes.deep_view()
                                + rest2);
                        },
                        None => {},
                    }
                }
                i = i + 67;
            } else if sep == 93 {
                if i + 68 == n {
                    if s[i + 67] == 125 {
                        proof {
                            assert(parse_close(s@, i as int + 66));
                            assert(spec_parse_entries(s@, i as int) == Some(seq![entry_node]));
                            assert(pre_nodes + seq![entry_node] =~= nodes.deep_view());
                            assert(spec_parse_entries(s@, 85) == Some(nodes.deep_view()));
                        }
                        let t = Ticket { topic, nodes };
                        proof {
                            assert(!parse_close(s@, 85));
                            assert(spec_parse(s@) == Some(t@));
                        }
                        return Ok(t);
                    } else {
                        proof {
                            assert(!parse_close(s@, i as int + 66));
                            assert(spec_parse_entries(s@, i as int) is None);
                        }
                        return Err(Error::MalformedTicket(String::from_str(
                            "ticket envelope is malformed",
                        )));
                    }
                } else {
                    proof {
                        assert(!parse_close(s@, i as int + 66));
                        assert(spec_parse_entries(s@, i as int) is None);
                    }
                    return Err(Error::MalformedTicket(String::from_str(
                        "ticket envelope is malformed",
                    )));
                }
            } else {
                proof {
                    assert(!parse_close(s@, i as int + 66));
                    assert(spec_parse_entries(s@, i as int) is None);
                }
                return Err(Error::MalformedTicket(String::from_str("ticket envelope is malformed")));
            }
        }
        proof {
            assert(spec_parse_entries(s@, i as int) is None);
        }
        Err(Error::MalformedTicket(String::from_str("ticket envelope is malformed")))
    }
}

/// The base32 (no padding, uppercase alphabet) encoding of a byte
/// string.  The outside crate computes it; only the facts stated at the
/// trusted wrappers below are assumed of it.
pub uninterp spec fn b32_of(b: Seq<u8>) -> Seq<u8>;

/// Whether a byte belongs to the RFC 4648 base32 alphabet, A–Z2–7.
pub open spec fn is_b32_byte(x: u8) -> bool {
    (65 <= x <= 90) || (50 <= x <= 55)
}

/// Relies on `data_encoding::BASE32_NOPAD.encode`: base32 without
/// padding over the uppercase alphabet A–Z2–7; the encoding is lossless,
/// so no other input yields the same output.
#[verifier::external_body]
pub(crate) fn b32_encode(b: &Vec<u8>) -> (r: Vec<u8>)
    ensures
        r@ == b32_of(b@),
        forall|i: int| 0 <= i < r@.len() ==> is_b32_byte(#[trigger] r@[i]),
{
    data_encoding::BASE32_NOPAD.encode(b.as_slice()).into_bytes()
}

/// Relies on `data_encoding::BASE32_NOPAD.decode`: it inverts `encode`,
/// rejecting every input that `encode` cannot produce; as the encoding
/// is lossless, the decoded bytes are the only preimage.
#[verifier::external_body]
pub(crate) fn b32_decode(s: &Vec<u8>) -> (r: Option<Vec<u8>>)
    ensures
        match r {
            Some(v) => s@ == b32_of(v@) && (forall|b2: Seq<u8>| #[trigger] b32_of(b2) == b32_of(v@)
                ==> b2 == v@),
            None => forall|b: Seq<u8>| s@ != #[trigger] b32_of(b),
        },
{
    match data_encoding::BASE32_NOPAD.decode(s.as_slice()) {
        Ok(v) => Some(v),
        Err(_) => None,
    }
}

/// Relies on `String::from_utf8`: the string whose UTF-8 encoding is the
/// given bytes, when one exists.
#[verifier::external_body]
fn utf8_to_string(b: Vec<u8>) -> (r: Option<String>)
    ensures
        match r {
            Some(t) => encode_utf8(t@) == b@,
            None => forall|cs: Seq<char>| encode_utf8(cs) != b@,
        },
{
    match String::from_utf8(b) {
        Ok(s) => Some(s),
        Err(_) => None,
    }
}

/// Uppercasing undoes lowercasing on base32 alphabet bytes, and the
/// lowercased bytes are ASCII.
proof fn lemma_b32_case(r: Seq<u8>)
    requires
        forall|i: int| 0 <= i < r.len() ==> is_b32_byte(#[trigger] r[i]),
    ensures
        upper_bytes(lower_bytes(r)) == r,
        all_ascii(lower_bytes(r)),
{
    assert(upper_bytes(lower_bytes(r)) =~= r) by {
        assert(forall|i: int|
            0 <= i < r.len() ==> upper_byte(lower_byte(#[trigger] r[i])) == r[i]);
    }
    assert(forall|i: int| 0 <= i < r.len() ==> lower_byte(#[trigger] r[i]) < 128);
}

impl Ticket {
    /// Encode this ticket as its portable text token: the JSON bytes,
    /// base32 without padding, lowercased.
    pub fn encode(&self) -> (r: String)
        ensures
            r@ == ascii_chars_of(lower_bytes(b32_of(spec_ser(self@)))),
            encode_utf8(r@) == lower_bytes(b32_of(spec_ser(self@))),
            upper_bytes(encode_utf8(r@)) == b32_of(spec_ser(self@)),
    {
        let json = self.to_bytes();
        let tok = b32_encode(&json);
        let low = to_lower(tok.as_slice());
        proof {
            lemma_b32_case(tok@);
            lemma_ascii_chars_encode(low@);
        }
        ascii_to_string(low)
    }

    /// Decode a text token, case-insensitively.  Succeeds if and only if
    /// the case-folded token is the encoding of a well-formed ticket,
    /// and then yields the one ticket the token encodes; every other
    /// text is rejected as malformed.
    pub fn decode(s: &str) -> (r: Result<Ticket, Error>)
        ensures
            r matches Ok(t) ==> {
                &&& ticket_wf(t@)
                &&& upper_bytes(encode_utf8(s@)) == b32_of(spec_ser(t@))
                &&& forall|tv: TicketV|
                    ticket_wf(tv) && upper_bytes(encode_utf8(s@)) == b32_of(spec_ser(tv)) ==> tv
                        == t@
            },
            r is Ok <==> (exists|tv: TicketV|
                ticket_wf(tv) && upper_bytes(encode_utf8(s@)) == #[trigger] b32_of(spec_ser(tv))),
            r is Err ==> (forall|tv: TicketV|
                ticket_wf(tv) ==> upper_bytes(encode_utf8(s@)) != b32_of(spec_ser(tv))),
    {
        let bytes = s.as_bytes();
        let up = to_upper(bytes);
        let json = match b32_decode(&up) {
            Some(v) => v,
            None => {
                return Err(Error::MalformedTicket(String::from_str(
                    "token is not base32 without padding",
                )));
            },
        };
        match Ticket::from_bytes(json.as_slice()) {
            Ok(t) => {
                proof {
                    lemma_ser_of_parse(json@, t@);
                    assert(json@ == spec_ser(t@));
                    assert(upper_bytes(encode_utf8(s@)) == b32_of(spec_ser(t@)));
                    assert forall|tv: TicketV|
                        ticket_wf(tv) && upper_bytes(encode_utf8(s@)) == b32_of(
                            spec_ser(tv),
                        ) implies tv == t@ by {
                        assert(spec_ser(tv) == json@);
                        lemma_parse_of_ser(tv);
                    }
                }
                Ok(t)
            },
            Err(e) => {
                proof {
                    assert forall|tv: TicketV| ticket_wf(tv) implies upper_bytes(encode_utf8(s@))
                        != b32_of(spec_ser(tv)) by {
                        if upper_bytes(encode_utf8(s@)) == b32_of(spec_ser(tv)) {
                            assert(spec_ser(tv) == json@);
                            lemma_parse_of_ser(tv);
                            assert(spec_parse(json@) == Some(tv));
                            assert(!nodes_keys_ok(tv.nodes));
                        }
                    }
                }
                Err(e)
            },
        }
    }

    /// Round-trip law: for every well-formed ticket with at least one
    /// peer, decoding the encoded token yields the ticket back.
    pub fn encode_then_decode(t: &Ticket) -> (r: Result<Ticket, Error>)
        requires
            ticket_wf(t@),
            t@.nodes.len() > 0,
        ensures
            r matches Ok(u) && u@ == t@,
    {
        let text = t.encode();
        let r = Ticket::decode(text.as_str());
        proof {
            if r is Err {
                assert(upper_bytes(encode_utf8(text@)) != b32_of(spec_ser(t@)));
                assert(false);
            }
        }
        r
    }

    /// Build a ticket from a hex topic id and hex node ids, validating
    /// each node id as a public key.
    #[verifier::rlimit(30)]
    pub fn new(topic: String, nodes: Vec<String>) -> (r: Result<Ticket, Error>)
        ensures
            r matches Ok(t) ==> {
                &&& ticket_wf(t@)
                &&& hex64_ok(encode_utf8(topic@))
                &&& t@.topic == hex_bytes_of(encode_utf8(topic@))
                &&& t@.nodes.len() == nodes@.len()
                &&& forall|k: int|
                    0 <= k < nodes@.len() ==> t@.nodes[k] == hex_bytes_of(
                        encode_utf8(#[trigger] nodes.deep_view()[k]),
                    )
            },
            r is Ok <==> (hex64_ok(encode_utf8(topic@)) && (forall|k: int|
                0 <= k < nodes@.len() ==> hex64_ok(encode_utf8(#[trigger] nodes.deep_view()[k]))
                    && is_node_key(hex_bytes_of(encode_utf8(nodes.deep_view()[k]))))),
    {
        let tb = topic.as_str().as_bytes();
        let tv = match hex_decode(tb) {
            Some(v) => v,
            None => {
                return Err(Error::EncodeDecode(String::from_str("topic id is not hex")));
            },
        };
        proof {
            crate::hex::lemma_hex_bytes_len(encode_utf8(topic@));
        }
        if tv.len() != 32 {
            return Err(Error::EncodeDecode(String::from_str("topic id must be 64 hex digits")));
        }
        let n = nodes.len();
        let mut out: Vec<Vec<u8>> = Vec::new();
        let mut i: usize = 0;
        while i < n
            invariant
                n == nodes@.len(),
                0 <= i <= n,
                tv@ == hex_bytes_of(encode_utf8(topic@)),
                tv@.len() == 32,
                hex64_ok(encode_utf8(topic@)),
                out.deep_view().len() == i,
                forall|k: int|
                    0 <= k < i ==> hex64_ok(encode_utf8(#[trigger] nodes.deep_view()[k]))
                        && is_node_key(hex_bytes_of(encode_utf8(nodes.deep_view()[k])))
                        && out.deep_view()[k] == hex_bytes_of(encode_utf8(nodes.deep_view()[k]))
                        && out.deep_view()[k].len() == 32,
            decreases n - i,
        {
            let nb = nodes[i].as_str().as_bytes();
            let ghost nbytes = encode_utf8(nodes.deep_view()[i as int]);
            let nv = match hex_decode(nb) {
                Some(v) => v,
                None => {
                    return Err(Error::EncodeDecode(String::from_str("node id is not hex")));
                },
            };
            proof {
                crate::hex::lemma_hex_bytes_len(nbytes);
            }
            if nv.len() != 32 {
                return Err(Error::EncodeDecode(String::from_str(
                    "node id must be 64 hex digits",
                )));
            }
            if !check_node_key(&nv) {
                return Err(Error::EncodeDecode(String::from_str("node id is not a valid key")));
            }
            let ghost pre = out.deep_view();
            proof {
                assert(nb@ == nbytes);
                assert(nv@ == hex_bytes_of(nbytes));
                assert(hex64_ok(nbytes));
                assert(is_node_key(hex_bytes_of(nbytes)));
                assert(hex_bytes_of(nbytes).len() == 32);
            }
            out.push(nv);
            proof {
                assert(out.deep_view() =~~= pre.push(hex_bytes_of(nbytes)));
                assert(out.deep_view()[i as int] == hex_bytes_of(nbytes));
                assert forall|k: int| 0 <= k < i + 1 implies hex64_ok(
                    encode_utf8(#[trigger] nodes.deep_view()[k]),
                ) && is_node_key(hex_bytes_of(encode_utf8(nodes.deep_view()[k])))
                    && out.deep_view()[k] == hex_bytes_of(encode_utf8(nodes.deep_view()[k]))
                    && out.deep_view()[k].len() == 32 by {
                    if k < i {
                        assert(out.deep_view()[k] == pre[k]);
                    } else {
                        assert(nodes.deep_view()[k] == nodes.deep_view()[i as int]);
                    }
                }
            }
            i = i + 1;
        }
        let t = Ticket { topic: tv, nodes: out };
        proof {
            assert forall|k: int|
                0 <= k < t@.nodes.len() implies (#[trigger] t@.nodes[k]).len() == 32
                && is_node_key(t@.nodes[k]) by {
                assert(t@.nodes[k] == out.deep_view()[k]);
                assert(out.deep_view()[k] == hex_bytes_of(encode_utf8(nodes.deep_view()[k])));
            }
            assert(ticket_wf(t@));
        }
        Ok(t)
    }
}

/// `b` is exactly 64 hex digits (either case).
pub open spec fn hex64_ok(b: Seq<u8>) -> bool {
    b.len() == 64 && all_hex(b)
}

/// How often byte `x` occurs in `b`.
pub open spec fn count_byte(b: Seq<u8>, x: u8) -> int
    decreases b.len(),
{
    if b.len() == 0 {
        0
    } else {
        count_byte(b.drop_last(), x) + if b.last() == x {
            1int
        } else {
            0int
        }
    }
}

/// Counting distributes over concatenation.
proof fn lemma_count_concat(a: Seq<u8>, b: Seq<u8>, x: u8)
    ensures
        count_byte(a + b, x) == count_byte(a, x) + count_byte(b, x),
    decreases b.len(),
{
    if b.len() == 0 {
        assert(a + b =~= a);
    } else {
        lemma_count_concat(a, b.drop_last(), x);
        assert((a + b).drop_last() =~= a + b.drop_last());
        assert((a + b).last() == b.last());
    }
}

/// The human-facing share string: `<name>:<token>`.
pub fn make_share_string(name: &String, token: &String) -> (r: String)
    ensures
        r@ == name@ + seq![':'] + token@,
{
    proof {
        reveal_strlit(":");
        assert(":"@ =~= seq![':']);
    }
    let out = name.clone();
    let out = out.concat(":");
    let out = out.concat(token.as_str());
    proof {
        assert(out@ =~= name@ + seq![':'] + token@);
    }
    out
}

/// Split a share string on its colon into the topic name and the token.
/// There must be exactly one colon; any other shape is a format error.
#[verifier::rlimit(30)]
pub fn parse_share_string(s: &str) -> (r: Result<(String, String), Error>)
    ensures
        r matches Ok(p) ==> {
            &&& encode_utf8(s@) == encode_utf8(p.0@) + seq![58u8] + encode_utf8(p.1@)
            &&& count_byte(encode_utf8(p.0@), 58) == 0
            &&& count_byte(encode_utf8(p.1@), 58) == 0
        },
        count_byte(encode_utf8(s@), 58) != 1 ==> r is Err,
        (vstd::utf8::is_ascii_chars(s@) && count_byte(encode_utf8(s@), 58) == 1) ==> r is Ok,
{
    let bytes = s.as_bytes();
    let n = bytes.len();
    let mut colons: usize = 0;
    let mut p: usize = 0;
    let mut j: usize = 0;
    while j < n
        invariant
            n == encode_utf8(s@).len(),
            bytes@ == encode_utf8(s@),
            0 <= j <= n,
            colons as int == count_byte(bytes@.subrange(0, j as int), 58),
            colons <= j,
            colons > 0 ==> (p < j && bytes@[p as int] == 58 && count_byte(
                bytes@.subrange(0, p as int),
                58,
            ) == 0),
        decreases n - j,
    {
        proof {
            let pre = bytes@.subrange(0, j as int);
            let cur = bytes@.subrange(0, j + 1 as int);
            assert(cur.drop_last() =~= pre);
            assert(cur.last() == bytes@[j as int]);
        }
        if bytes[j] == 58 {
            if colons == 0 {
                p = j;
            }
            colons = colons + 1;
        }
        j = j + 1;
    }
    proof {
        assert(bytes@.subrange(0, n as int) =~= bytes@);
    }
    if colons != 1 {
        return Err(Error::MalformedTicket(String::from_str(
            "share string must be name:token",
        )));
    }
    let name_b = copy_range(bytes, 0, p);
    let tok_b = copy_range(bytes, p + 1, n);
    proof {
        assert(bytes@[p as int] == 58);
        assert(name_b@.len() == p as int);
        assert(tok_b@.len() == n - p - 1);
        assert(bytes@ =~= name_b@ + seq![58u8] + tok_b@);
        lemma_count_concat(name_b@ + seq![58u8], tok_b@, 58);
        lemma_count_concat(name_b@, seq![58u8], 58);
        assert(count_byte(seq![58u8], 58) == 1) by {
            let single = seq![58u8];
            assert(single.drop_last() =~= Seq::<u8>::empty());
            assert(count_byte(Seq::<u8>::empty(), 58) == 0);
            assert(single.last() == 58);
        }
        assert(count_byte(tok_b@, 58) == 0);
    }
    let ghost ascii_case = vstd::utf8::is_ascii_chars(s@);
    proof {
        if ascii_case {
            vstd::utf8::is_ascii_chars_encode_utf8(s@);
            assert(all_ascii(bytes@)) by {
                assert(forall|k: int|
                    0 <= k < s@.len() ==> #[trigger] bytes@[k] == (s@[k] as u8));
                assert(forall|k: int| 0 <= k < s@.len() ==> '\0' <= #[trigger] s@[k] <= '\u{7f}');
            }
            assert(all_ascii(name_b@));
            assert(all_ascii(tok_b@));
            lemma_ascii_chars_encode(name_b@);
            lemma_ascii_chars_encode(tok_b@);
        }
    }
    let ghost name_bytes = name_b@;
    let ghost tok_bytes = tok_b@;
    let name = match utf8_to_string(name_b) {
        Some(t) => t,
        None => {
            proof {
                if ascii_case {
                    assert(encode_utf8(ascii_chars_of(name_bytes)) == name_bytes);
                    assert(false);
                }
            }
            return Err(Error::MalformedTicket(String::from_str(
                "share string is not valid text",
            )));
        },
    };
    let token = match utf8_to_string(tok_b) {
        Some(t) => t,
        None => {
            proof {
                if ascii_case {
                    assert(encode_utf8(ascii_chars_of(tok_bytes)) == tok_bytes);
                    assert(false);
                }
            }
            return Err(Error::MalformedTicket(String::from_str(
                "share string is not valid text",
            )));
        },
    };
    Ok((name, token))
}

/// The share string for a topic: its name, a colon, and the encoded
/// ticket naming the topic id and every current peer.
pub fn share_string_for_topic(topic: &crate::records::Topic) -> (r: Result<String, Error>)
    ensures
        r is Ok <==> (hex64_ok(encode_utf8(topic.topic_id@)) && (forall|k: int|
            0 <= k < crate::records::peers_of(topic@).len() ==> hex64_ok(
                encode_utf8(#[trigger] crate::records::peers_of(topic@)[k]),
            ) && is_node_key(
                hex_bytes_of(encode_utf8(crate::records::peers_of(topic@)[k])),
            ))),
        r matches Ok(s) ==> (exists|tv: TicketV|
            ticket_wf(tv) && tv.topic == hex_bytes_of(encode_utf8(topic.topic_id@))
                && tv.nodes.len() == crate::records::peers_of(topic@).len() && (forall|k: int|
                0 <= k < tv.nodes.len() ==> tv.nodes[k] == hex_bytes_of(
                    encode_utf8(#[trigger] crate::records::peers_of(topic@)[k]),
                )) && s@ == topic.name@ + seq![':'] + ascii_chars_of(
                lower_bytes(#[trigger] b32_of(spec_ser(tv))),
            )),
{
    let peers = topic.get_peers();
    let ghost peer_ids = crate::records::peers_of(topic@);
    proof {
        assert(peers.deep_view() == peer_ids);
    }
    let t = match Ticket::new(topic.topic_id.clone(), peers) {
        Ok(t) => t,
        Err(e) => {
            proof {
                assert(!(hex64_ok(encode_utf8(topic.topic_id@)) && (forall|k: int|
                    0 <= k < peer_ids.len() ==> hex64_ok(encode_utf8(#[trigger] peer_ids[k]))
                        && is_node_key(hex_bytes_of(encode_utf8(peer_ids[k]))))));
            }
            return Err(e);
        },
    };
    let token = t.encode();
    let s = make_share_string(&topic.name, &token);
    proof {
        assert(ticket_wf(t@) && t@.topic == hex_bytes_of(encode_utf8(topic.topic_id@)) && s@
            == topic.name@ + seq![':'] + ascii_chars_of(lower_bytes(b32_of(spec_ser(t@)))));
        assert(forall|k: int|
            0 <= k < t@.nodes.len() ==> t@.nodes[k] == hex_bytes_of(
                encode_utf8(#[trigger] peer_ids[k]),
            ));
        assert(forall|k: int|
            0 <= k < peer_ids.len() ==> hex64_ok(encode_utf8(#[trigger] peer_ids[k]))
                && is_node_key(hex_bytes_of(encode_utf8(peer_ids[k]))));
    }
    Ok(s)
}

/// The local topic record a joining node persists from a decoded
/// ticket: the first node is the owner, the rest are members, and the
/// joining node appends itself.  Fails exactly when the ticket names no
/// node at all.
pub fn topic_from_ticket(t: &Ticket, name: String, self_node: String) -> (r: Result<
    crate::records::Topic,
    Error,
>)
    ensures
        r is Ok <==> t@.nodes.len() > 0,
        r matches Ok(tp) ==> {
            &&& tp@.id == 0
            &&& tp@.name == name@
            &&& tp@.topic_id == ascii_chars_of(hex_of(t@.topic))
            &&& tp@.owner == ascii_chars_of(hex_of(t@.nodes[0]))
            &&& (match tp@.members {
                Some(ms) => {
                    &&& ms.len() == t@.nodes.len()
                    &&& (forall|k: int|
                        1 <= k < t@.nodes.len() ==> #[trigger] ms[k - 1] == ascii_chars_of(
                            hex_of(t@.nodes[k]),
                        ))
                    &&& ms.last() == self_node@
                },
                None => false,
            })
        },
{
    let n = t.nodes.len();
    proof {
        assert(t@.nodes.len() == t.nodes@.len());
    }
    if n == 0 {
        return Err(Error::MalformedTicket(String::from_str(
            "ticket must name the topic owner",
        )));
    }
    let topic_hex = hex_encode(t.topic.as_slice());
    proof {
        lemma_hex_of_digits(t@.topic);
        assert(all_ascii(topic_hex@));
    }
    let topic_id = ascii_to_string(topic_hex);
    let owner_hex = hex_encode(t.nodes[0].as_slice());
    proof {
        assert(t.nodes@[0]@ == t@.nodes[0]);
        lemma_hex_of_digits(t@.nodes[0]);
        assert(all_ascii(owner_hex@));
    }
    let owner = ascii_to_string(owner_hex);
    let mut members: Vec<String> = Vec::new();
    let mut i: usize = 1;
    while i < n
        invariant
            n == t.nodes@.len(),
            1 <= i <= n,
            members@.len() == i - 1,
            forall|k: int|
                1 <= k < i ==> #[trigger] members@[k - 1]@ == ascii_chars_of(hex_of(t@.nodes[k])),
        decreases n - i,
    {
        let h = hex_encode(t.nodes[i].as_slice());
        proof {
            assert(t.nodes@[i as int]@ == t@.nodes[i as int]);
            lemma_hex_of_digits(t@.nodes[i as int]);
            assert(all_ascii(h@));
        }
        members.push(ascii_to_string(h));
        i = i + 1;
    }
    members.push(self_node);
    Ok(crate::records::Topic::new_topic_with_id(topic_id, name, owner, Some(members)))
}

/// At an entry whose hex parses but whose key is invalid, any parse of
/// the whole input carries that invalid key.
proof fn lemma_err_invalid_key(s: Seq<u8>, i: int, done: Seq<Seq<u8>>, entry_node: Seq<u8>)
    requires
        85 <= i,
        i + 68 <= s.len(),
        s[85] != 93,
        s[i] == 34,
        s[i + 65] == 34,
        lower_hex_ok(s.subrange(i + 1, i + 65)),
        entry_node == hex_bytes_of(s.subrange(i + 1, i + 65)),
        !is_node_key(entry_node),
        spec_parse_entries(s, 85) == (match spec_parse_entries(s, i) {
            Some(rest) => Some(done + rest),
            None => None::<Seq<Seq<u8>>>,
        }),
    ensures
        match spec_parse(s) {
            Some(tv) => !nodes_keys_ok(tv.nodes),
            None => true,
        },
{
    match spec_parse_entries(s, i) {
        Some(rest) => {
            assert(rest[0] == entry_node);
            let all = done + rest;
            assert(all[done.len() as int] == entry_node);
            assert(!nodes_keys_ok(all));
            match spec_parse(s) {
                Some(tv) => {
                    assert(tv.nodes == all);
                },
                None => {},
            }
        },
        None => {
            assert(spec_parse_entries(s, 85) is None);
        },
    }
}


} // verus!
