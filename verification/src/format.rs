use crate::decode::{
    announced_len, continuation_run, group_value, is_continuation, lemma_continuation_run,
    string_at, ushort_at, varint_at, wrap_i32, Decoded,
};
use crate::error::ProxyError;
use crate::packet::{
    handshake_at, handshake_tail_at, intent_of, packet_at, parse_spec, HandshakeModel,
    PacketModel, State,
};
use crate::text::lossy_text;
use crate::MAX_PACKET_SIZE;
use vstd::prelude::*;
use vstd::utf8::{encode_utf8, encode_utf8_decode_utf8, encode_utf8_valid_utf8};

verus! {

/// Whether `group` is one whole variable-length integer: one to five bytes,
/// each but the last with the continuation flag, the last without.
pub open spec fn is_varint(group: Seq<u8>) -> bool {
    &&& 1 <= group.len() <= 5
    &&& forall|i: int| 0 <= i < group.len() - 1 ==> is_continuation(#[trigger] group[i])
    &&& !is_continuation(group[group.len() - 1])
}

/// The integer that a whole group encodes.
pub open spec fn varint_value(group: Seq<u8>) -> i32 {
    wrap_i32(group_value(group))
}

/// The two bytes of a port on the wire, most significant first.
pub open spec fn port_bytes(port: u16) -> Seq<u8> {
    seq![(port / 0x100) as u8, (port % 0x100) as u8]
}

/// A string on the wire: the length of its UTF-8 form, then that form.
pub open spec fn is_string_field(prefix: Seq<u8>, text: Seq<char>) -> bool {
    &&& is_varint(prefix)
    &&& varint_value(prefix) == encode_utf8(text).len()
}

/// The bytes of a handshake packet, put together from its fields as they
/// stand on the wire.
pub open spec fn handshake_bytes(
    length: Seq<u8>,
    id: Seq<u8>,
    version: Seq<u8>,
    name_prefix: Seq<u8>,
    name: Seq<char>,
    port: u16,
    intent: Seq<u8>,
) -> Seq<u8> {
    length + id + version + name_prefix + encode_utf8(name) + port_bytes(port) + intent
}

/// What the run of flagged bytes at `pos` is made of, and why it ends.
pub proof fn lemma_run_shape(bytes: Seq<u8>, pos: int, limit: nat)
    requires
        0 <= pos,
    ensures
        continuation_run(bytes, pos, limit) <= limit,
        continuation_run(bytes, pos, limit) > 0 ==> pos + continuation_run(bytes, pos, limit)
            <= bytes.len(),
        forall|j: int|
            pos <= j < pos + continuation_run(bytes, pos, limit) ==> is_continuation(
                #[trigger] bytes[j],
            ),
        continuation_run(bytes, pos, limit) == limit || pos + continuation_run(bytes, pos, limit)
            >= bytes.len() || !is_continuation(
            bytes[pos + continuation_run(bytes, pos, limit)],
        ),
    decreases limit,
{
    if limit == 0 || pos >= bytes.len() || !is_continuation(bytes[pos]) {
    } else {
        lemma_run_shape(bytes, pos + 1, (limit - 1) as nat);
    }
}

/// An integer whose first five bytes all ask for more is refused as too
/// long, and no other is.
pub proof fn lemma_varint_too_long(bytes: Seq<u8>, pos: int)
    requires
        0 <= pos <= bytes.len(),
    ensures
        varint_at(bytes, pos).result == Err::<i32, ProxyError>(ProxyError::VarIntTooLong) <==> (pos
            + 5 <= bytes.len() && forall|j: int|
            pos <= j < pos + 5 ==> is_continuation(#[trigger] bytes[j])),
{
    lemma_run_shape(bytes, pos, 5);
    if pos + 5 <= bytes.len() && forall|j: int|
        pos <= j < pos + 5 ==> is_continuation(#[trigger] bytes[j]) {
        lemma_continuation_run(bytes, pos, 5, 5);
    }
}

/// A whole integer that stands in the buffer at `pos` is decoded to its
/// value, and the cursor is left right behind it.
pub proof fn lemma_varint_embedded(bytes: Seq<u8>, pos: int, group: Seq<u8>)
    requires
        is_varint(group),
        0 <= pos,
        pos + group.len() <= bytes.len(),
        bytes.subrange(pos, pos + group.len()) == group,
    ensures
        varint_at(bytes, pos) == (Decoded {
            result: Ok::<i32, ProxyError>(varint_value(group)),
            next: pos + group.len(),
        }),
{
    let last = (group.len() - 1) as nat;
    assert forall|j: int| pos <= j < pos + last implies is_continuation(#[trigger] bytes[j]) by {
        assert(bytes[j] == bytes.subrange(pos, pos + group.len())[j - pos]);
        assert(is_continuation(group[j - pos]));
    }
    assert(bytes[pos + last] == bytes.subrange(pos, pos + group.len())[last as int]);
    lemma_continuation_run(bytes, pos, 5, last);
}

/// Cutting the buffer short of where an integer's decoding stops leaves
/// `UnexpectedEnd`, with the cursor at the new end; cutting it anywhere
/// behind changes nothing.
pub proof fn lemma_varint_truncated(bytes: Seq<u8>, pos: int, cut: int)
    requires
        0 <= pos <= cut <= bytes.len(),
    ensures
        cut < varint_at(bytes, pos).next ==> varint_at(bytes.take(cut), pos) == (Decoded {
            result: Err::<i32, ProxyError>(ProxyError::UnexpectedEnd),
            next: cut,
        }),
        cut >= varint_at(bytes, pos).next ==> varint_at(bytes.take(cut), pos) == varint_at(
            bytes,
            pos,
        ),
{
    let short = bytes.take(cut);
    let run = continuation_run(bytes, pos, 5);
    lemma_run_shape(bytes, pos, 5);
    if cut < varint_at(bytes, pos).next {
        let seen = (cut - pos) as nat;
        assert forall|j: int| pos <= j < pos + seen implies is_continuation(
            #[trigger] short[j],
        ) by {
            assert(short[j] == bytes[j]);
        }
        lemma_continuation_run(short, pos, 5, seen);
    } else {
        assert forall|j: int| pos <= j < pos + run implies is_continuation(
            #[trigger] short[j],
        ) by {
            assert(short[j] == bytes[j]);
        }
        if run < 5 && pos + run < bytes.len() {
            assert(short[pos + run] == bytes[pos + run]);
            assert(short.subrange(pos, pos + run + 1) =~= bytes.subrange(pos, pos + run + 1));
        }
        if run < 5 && pos + run >= bytes.len() {
            assert(short =~= bytes);
        }
        lemma_continuation_run(short, pos, 5, run);
    }
}

/// The same for a 16-bit integer.
pub proof fn lemma_ushort_truncated(bytes: Seq<u8>, pos: int, cut: int)
    requires
        0 <= pos <= cut <= bytes.len(),
    ensures
        cut < ushort_at(bytes, pos).next ==> ushort_at(bytes.take(cut), pos) == (Decoded {
            result: Err::<u16, ProxyError>(ProxyError::UnexpectedEnd),
            next: cut,
        }),
        cut >= ushort_at(bytes, pos).next ==> ushort_at(bytes.take(cut), pos) == ushort_at(
            bytes,
            pos,
        ),
{
}

/// The same for a string.
pub proof fn lemma_string_truncated(bytes: Seq<u8>, pos: int, cut: int)
    requires
        0 <= pos <= cut <= bytes.len(),
    ensures
        cut < string_at(bytes, pos).next ==> string_at(bytes.take(cut), pos) == (Decoded {
            result: Err::<Seq<char>, ProxyError>(ProxyError::UnexpectedEnd),
            next: cut,
        }),
        cut >= string_at(bytes, pos).next ==> string_at(bytes.take(cut), pos) == string_at(
            bytes,
            pos,
        ),
{
    let short = bytes.take(cut);
    let prefix = varint_at(bytes, pos);
    lemma_varint_truncated(bytes, pos, cut);
    lemma_varint_end(bytes, pos);
    if cut >= prefix.next {
        if let Ok(length) = prefix.result {
            let end = prefix.next + announced_len(length);
            if end <= cut {
                assert(short.subrange(prefix.next, end) =~= bytes.subrange(prefix.next, end));
            }
        }
    }
}

/// Decoding an integer leaves the cursor behind where it was, and inside
/// the buffer where it succeeds.
pub proof fn lemma_varint_end(bytes: Seq<u8>, pos: int)
    requires
        0 <= pos <= bytes.len(),
    ensures
        varint_at(bytes, pos).result is Ok ==> pos < varint_at(bytes, pos).next <= bytes.len(),
        varint_at(bytes, pos).result == Err::<i32, ProxyError>(ProxyError::UnexpectedEnd)
            ==> varint_at(bytes, pos).next == bytes.len(),
        pos <= varint_at(bytes, pos).next,
{
    lemma_run_shape(bytes, pos, 5);
}

/// Decoding a string leaves the cursor behind where it was, and inside the
/// buffer where it succeeds.
pub proof fn lemma_string_end(bytes: Seq<u8>, pos: int)
    requires
        0 <= pos <= bytes.len(),
    ensures
        string_at(bytes, pos).result is Ok ==> pos < string_at(bytes, pos).next <= bytes.len(),
        pos <= string_at(bytes, pos).next,
{
    lemma_varint_end(bytes, pos);
}

/// Decoding the end of a handshake leaves the cursor behind where it was.
pub proof fn lemma_handshake_tail_end(server: Seq<char>, bytes: Seq<u8>, pos: int)
    requires
        0 <= pos <= bytes.len(),
    ensures
        pos <= handshake_tail_at(server, bytes, pos).next,
{
    let port = ushort_at(bytes, pos);
    if port.result is Ok {
        lemma_varint_end(bytes, port.next);
    }
}

/// Decoding the body of a handshake leaves the cursor behind where it was.
pub proof fn lemma_handshake_end(bytes: Seq<u8>, pos: int)
    requires
        0 <= pos <= bytes.len(),
    ensures
        pos <= handshake_at(bytes, pos).next,
{
    let version = varint_at(bytes, pos);
    lemma_varint_end(bytes, pos);
    if version.result is Ok {
        let server = string_at(bytes, version.next);
        lemma_string_end(bytes, version.next);
        if let Ok(name) = server.result {
            lemma_handshake_tail_end(name, bytes, server.next);
        }
    }
}

/// Cutting the buffer short of where the end of a handshake stops decoding
/// leaves `UnexpectedEnd`; cutting it anywhere behind changes nothing.
pub proof fn lemma_handshake_tail_truncated(server: Seq<char>, bytes: Seq<u8>, pos: int, cut: int)
    requires
        0 <= pos <= cut <= bytes.len(),
    ensures
        cut < handshake_tail_at(server, bytes, pos).next ==> handshake_tail_at(
            server,
            bytes.take(cut),
            pos,
        ) == (Decoded {
            result: Err::<PacketModel, ProxyError>(ProxyError::UnexpectedEnd),
            next: cut,
        }),
        cut >= handshake_tail_at(server, bytes, pos).next ==> handshake_tail_at(
            server,
            bytes.take(cut),
            pos,
        ) == handshake_tail_at(server, bytes, pos),
{
    let port = ushort_at(bytes, pos);
    lemma_ushort_truncated(bytes, pos, cut);
    if port.result is Ok {
        lemma_varint_end(bytes, port.next);
        if cut >= port.next {
            lemma_varint_truncated(bytes, port.next, cut);
        }
    }
}

/// The same for the whole body of a handshake.
pub proof fn lemma_handshake_truncated(bytes: Seq<u8>, pos: int, cut: int)
    requires
        0 <= pos <= cut <= bytes.len(),
    ensures
        cut < handshake_at(bytes, pos).next ==> handshake_at(bytes.take(cut), pos) == (Decoded {
            result: Err::<PacketModel, ProxyError>(ProxyError::UnexpectedEnd),
            next: cut,
        }),
        cut >= handshake_at(bytes, pos).next ==> handshake_at(bytes.take(cut), pos)
            == handshake_at(bytes, pos),
{
    let version = varint_at(bytes, pos);
    lemma_varint_truncated(bytes, pos, cut);
    lemma_varint_end(bytes, pos);
    if version.result is Ok {
        let server = string_at(bytes, version.next);
        lemma_string_end(bytes, version.next);
        if let Ok(name) = server.result {
            lemma_handshake_tail_end(name, bytes, server.next);
        }
        if cut >= version.next {
            lemma_string_truncated(bytes, version.next, cut);
            if let Ok(name) = server.result {
                if cut >= server.next {
                    lemma_handshake_tail_truncated(name, bytes, server.next, cut);
                }
            }
        }
    }
}

/// The same for a whole packet, met in any state.
pub proof fn lemma_packet_truncated(state: State, bytes: Seq<u8>, cut: int)
    requires
        0 <= cut <= bytes.len(),
    ensures
        cut < packet_at(state, bytes).next ==> packet_at(state, bytes.take(cut)) == (Decoded {
            result: Err::<PacketModel, ProxyError>(ProxyError::UnexpectedEnd),
            next: cut,
        }),
        cut >= packet_at(state, bytes).next ==> packet_at(state, bytes.take(cut)) == packet_at(
            state,
            bytes,
        ),
{
    let length = varint_at(bytes, 0);
    lemma_varint_truncated(bytes, 0, cut);
    lemma_varint_end(bytes, 0);
    if length.result is Ok {
        let id = varint_at(bytes, length.next);
        lemma_varint_end(bytes, length.next);
        if id.result is Ok {
            lemma_handshake_end(bytes, id.next);
        }
        if cut >= length.next {
            lemma_varint_truncated(bytes, length.next, cut);
            if id.result is Ok && cut >= id.next {
                lemma_handshake_truncated(bytes, id.next, cut);
            }
        }
    }
}

/// A first read that breaks off before the packet's decoding is through is
/// answered with `UnexpectedEnd`, whatever the whole packet would have given;
/// bytes behind the place where decoding stops have no part in the answer.
/// A buffer of exactly the greatest size is refused before either applies.
pub proof fn lemma_parse_truncated(state: State, bytes: Seq<u8>, cut: int)
    requires
        0 <= cut <= bytes.len(),
        cut != MAX_PACKET_SIZE,
    ensures
        cut < packet_at(state, bytes).next ==> parse_spec(state, bytes.take(cut)) == Err::<
            PacketModel,
            ProxyError,
        >(ProxyError::UnexpectedEnd),
        cut >= packet_at(state, bytes).next ==> parse_spec(state, bytes.take(cut)) == packet_at(
            state,
            bytes,
        ).result,
{
    lemma_packet_truncated(state, bytes, cut);
}

/// Where each field of a handshake stands in the buffer.
proof fn lemma_handshake_layout(
    length: Seq<u8>,
    id: Seq<u8>,
    version: Seq<u8>,
    name_prefix: Seq<u8>,
    name: Seq<char>,
    port: u16,
    intent: Seq<u8>,
    rest: Seq<u8>,
)
    ensures
        ({
            let bytes = handshake_bytes(length, id, version, name_prefix, name, port, intent)
                + rest;
            let at_id = length.len() as int;
            let at_version = at_id + id.len();
            let at_name = at_version + version.len();
            let at_text = at_name + name_prefix.len();
            let at_port = at_text + encode_utf8(name).len();
            let at_intent = at_port + 2;
            let end = at_intent + intent.len();
            &&& bytes.len() == end + rest.len()
            &&& bytes.subrange(0, at_id) == length
            &&& bytes.subrange(at_id, at_version) == id
            &&& bytes.subrange(at_version, at_name) == version
            &&& bytes.subrange(at_name, at_text) == name_prefix
            &&& bytes.subrange(at_text, at_port) == encode_utf8(name)
            &&& bytes[at_port] == (port / 0x100) as u8
            &&& bytes[at_port + 1] == (port % 0x100) as u8
            &&& bytes.subrange(at_intent, end) == intent
        }),
{
    let bytes = handshake_bytes(length, id, version, name_prefix, name, port, intent) + rest;
    let at_id = length.len() as int;
    let at_version = at_id + id.len();
    let at_name = at_version + version.len();
    let at_text = at_name + name_prefix.len();
    let at_port = at_text + encode_utf8(name).len();
    let at_intent = at_port + 2;
    let end = at_intent + intent.len();
    assert(bytes.subrange(0, at_id) =~= length);
    assert(bytes.subrange(at_id, at_version) =~= id);
    assert(bytes.subrange(at_version, at_name) =~= version);
    assert(bytes.subrange(at_name, at_text) =~= name_prefix);
    assert(bytes.subrange(at_text, at_port) =~= encode_utf8(name));
    assert(bytes.subrange(at_intent, end) =~= intent);
}

/// A handshake that is well formed field by field is decoded to the very
/// host name, port and next state that were written into it, whatever
/// follows it in the buffer, unless the buffer has the one size that is
/// refused unread.
pub proof fn lemma_handshake_round_trip(
    length: Seq<u8>,
    id: Seq<u8>,
    version: Seq<u8>,
    name_prefix: Seq<u8>,
    name: Seq<char>,
    port: u16,
    intent: Seq<u8>,
    rest: Seq<u8>,
)
    requires
        is_varint(length),
        is_varint(id),
        is_varint(version),
        is_string_field(name_prefix, name),
        is_varint(intent),
        intent_of(varint_value(intent)) is Ok,
        (handshake_bytes(length, id, version, name_prefix, name, port, intent) + rest).len()
            != MAX_PACKET_SIZE,
    ensures
        parse_spec(
            State::Handshaking,
            handshake_bytes(length, id, version, name_prefix, name, port, intent) + rest,
        ) == Ok::<PacketModel, ProxyError>(
            PacketModel::Handshake(
                HandshakeModel {
                    server: name,
                    port,
                    intent: intent_of(varint_value(intent))->Ok_0,
                },
            ),
        ),
{
    let text = encode_utf8(name);
    let bytes = handshake_bytes(length, id, version, name_prefix, name, port, intent) + rest;
    let at_id = length.len() as int;
    let at_version = at_id + id.len();
    let at_name = at_version + version.len();
    let at_text = at_name + name_prefix.len();
    let at_port = at_text + text.len();
    let at_intent = at_port + 2;
    lemma_handshake_layout(length, id, version, name_prefix, name, port, intent, rest);
    lemma_varint_embedded(bytes, 0, length);
    lemma_varint_embedded(bytes, at_id, id);
    lemma_varint_embedded(bytes, at_version, version);
    lemma_varint_embedded(bytes, at_name, name_prefix);
    encode_utf8_valid_utf8(name);
    encode_utf8_decode_utf8(name);
    assert(string_at(bytes, at_name) == (Decoded {
        result: Ok::<Seq<char>, ProxyError>(name),
        next: at_port,
    }));
    assert(ushort_at(bytes, at_port) == (Decoded {
        result: Ok::<u16, ProxyError>(port),
        next: at_intent,
    }));
    lemma_varint_embedded(bytes, at_intent, intent);
    assert(handshake_tail_at(name, bytes, at_port).result == Ok::<PacketModel, ProxyError>(
        PacketModel::Handshake(
            HandshakeModel { server: name, port, intent: intent_of(varint_value(intent))->Ok_0 },
        ),
    ));
    assert(handshake_at(bytes, at_version).result == handshake_tail_at(
        name,
        bytes,
        at_port,
    ).result);
}

/// The groups of seven bits of `number`, least significant first, each but
/// the last with the continuation flag: the shortest way to write it.
pub open spec fn encode_groups(number: nat) -> Seq<u8>
    decreases number,
{
    if number < 0x80 {
        seq![number as u8]
    } else {
        seq![(0x80 + number % 0x80) as u8] + encode_groups(number / 0x80)
    }
}

/// The 32 bits of `value` in two's complement, read as an unsigned number.
pub open spec fn unsigned_bits(value: i32) -> nat {
    if value >= 0 {
        value as nat
    } else {
        (value + 0x1_0000_0000) as nat
    }
}

/// The shortest encoding of `value` as a variable-length integer.
pub open spec fn encode_varint(value: i32) -> Seq<u8> {
    encode_groups(unsigned_bits(value))
}

/// The code that names a next state in a handshake. Only status and login
/// can be asked for.
pub open spec fn intent_code(intent: State) -> i32 {
    match intent {
        State::Handshaking => 0,
        State::Status => 1,
        State::Login => 2,
    }
}

/// A handshake packet as a client writes it: the length of what follows,
/// then the id, the protocol version, the host name, the port and the next
/// state.
pub open spec fn encode_handshake(
    id: i32,
    version: i32,
    name: Seq<char>,
    port: u16,
    intent: State,
) -> Seq<u8> {
    let body = encode_varint(id) + encode_varint(version) + encode_varint(
        encode_utf8(name).len() as i32,
    ) + encode_utf8(name) + port_bytes(port) + encode_varint(intent_code(intent));
    encode_varint(body.len() as i32) + body
}

/// The shortest encoding of a number spells that number, is well formed but
/// for its length, and has no more groups than the number needs.
pub proof fn lemma_encode_groups(number: nat, groups: nat)
    requires
        groups >= 1,
        number < crate::decode::weight(groups),
    ensures
        group_value(encode_groups(number)) == number,
        1 <= encode_groups(number).len() <= groups,
        forall|i: int|
            0 <= i < encode_groups(number).len() - 1 ==> is_continuation(
                #[trigger] encode_groups(number)[i],
            ),
        !is_continuation(encode_groups(number)[encode_groups(number).len() - 1]),
    decreases number,
{
    let code = encode_groups(number);
    if number < 0x80 {
        assert(code.drop_first() =~= Seq::<u8>::empty());
        assert(group_value(code.drop_first()) == 0);
    } else {
        let first = (0x80 + number % 0x80) as u8;
        let rest = encode_groups(number / 0x80);
        assert(crate::decode::weight(1) == 0x80) by {
            crate::decode::lemma_weights();
        }
        assert(groups >= 2);
        lemma_encode_groups(number / 0x80, (groups - 1) as nat);
        assert(code.drop_first() =~= rest);
        assert(code[0] == first);
        assert forall|i: int| 0 <= i < code.len() - 1 implies is_continuation(
            #[trigger] code[i],
        ) by {
            if i > 0 {
                assert(code[i] == rest[i - 1]);
            }
        }
        assert(code[code.len() - 1] == rest[rest.len() - 1]);
    }
}

/// The shortest encoding of any 32-bit integer is a whole variable-length
/// integer, and encodes that integer.
pub proof fn lemma_encode_varint(value: i32)
    ensures
        is_varint(encode_varint(value)),
        varint_value(encode_varint(value)) == value,
{
    crate::decode::lemma_weights();
    lemma_encode_groups(unsigned_bits(value), 5);
}

/// What a client writes for a handshake is decoded to the host name, the
/// port and the next state that it wrote, as long as the lengths fit the
/// integers that carry them and the packet has not the one size that is
/// refused unread.
pub proof fn lemma_encode_then_parse(
    id: i32,
    version: i32,
    name: Seq<char>,
    port: u16,
    intent: State,
)
    requires
        intent != State::Handshaking,
        encode_utf8(name).len() <= i32::MAX,
        encode_handshake(id, version, name, port, intent).len() != MAX_PACKET_SIZE,
    ensures
        parse_spec(State::Handshaking, encode_handshake(id, version, name, port, intent)) == Ok::<
            PacketModel,
            ProxyError,
        >(PacketModel::Handshake(HandshakeModel { server: name, port, intent })),
{
    let name_prefix = encode_varint(encode_utf8(name).len() as i32);
    let code = encode_varint(intent_code(intent));
    let body = encode_varint(id) + encode_varint(version) + name_prefix + encode_utf8(name)
        + port_bytes(port) + code;
    let length = encode_varint(body.len() as i32);
    lemma_encode_varint(body.len() as i32);
    lemma_encode_varint(id);
    lemma_encode_varint(version);
    lemma_encode_varint(encode_utf8(name).len() as i32);
    lemma_encode_varint(intent_code(intent));
    let fields = handshake_bytes(
        length,
        encode_varint(id),
        encode_varint(version),
        name_prefix,
        name,
        port,
        code,
    );
    assert(fields + Seq::<u8>::empty() =~= encode_handshake(id, version, name, port, intent));
    lemma_handshake_round_trip(
        length,
        encode_varint(id),
        encode_varint(version),
        name_prefix,
        name,
        port,
        code,
        Seq::<u8>::empty(),
    );
}

} // verus!
