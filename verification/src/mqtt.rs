use vstd::prelude::*;
use vstd::string::StringExecFns;

use crate::led::{LedState, Rgb8};
use crate::text::{
    chars_eq, chars_of, decimal, lemma_parse_decimal, lemma_split_len, lemma_split_two, parse_u32,
    parse_u32_spec, push_decimal, split, split_spec,
};

verus! {

/// The topic on which a lamp with this id receives colours.
pub fn color_topic(uuid: &str) -> (topic: String)
    ensures
        topic@ == uuid@ + "/color"@,
{
    let mut topic = uuid.to_owned();
    topic.append("/color");
    topic
}

/// The 24-bit value `0xRRGGBB` of a colour.
pub open spec fn color_value(c: Rgb8) -> nat {
    (c.r as nat) * 65536 + (c.g as nat) * 256 + (c.b as nat)
}

/// The colour whose channels are bits 16..24, 8..16 and 0..8 of `n`.
pub open spec fn color_of(n: u32) -> Rgb8 {
    Rgb8 { r: ((n / 65536) % 256) as u8, g: ((n / 256) % 256) as u8, b: (n % 256) as u8 }
}

/// Packs a colour into `0xRRGGBB`.
pub fn encode_color(c: Rgb8) -> (n: u32)
    ensures
        n == color_value(c),
        n < 0x100_0000,
{
    (c.r as u32) * 65536 + (c.g as u32) * 256 + (c.b as u32)
}

/// Unpacks `0xRRGGBB` into a colour; higher bits are ignored.
pub fn decode_color(n: u32) -> (c: Rgb8)
    ensures
        c == color_of(n),
{
    let r = ((n & 0xff0000) >> 16) as u8;
    let g = ((n & 0x00ff00) >> 8) as u8;
    let b = (n & 0x0000ff) as u8;
    assert(((n & 0xff0000) >> 16) == (n / 65536) % 256) by (bit_vector);
    assert(((n & 0x00ff00) >> 8) == (n / 256) % 256) by (bit_vector);
    assert((n & 0x0000ff) == n % 256) by (bit_vector);
    Rgb8 { r, g, b }
}

/// The message that tells the lamp `partner_name` to show `c`:
/// the partner's name, a comma, and the colour's value in decimal.
pub open spec fn color_payload_spec(partner_name: Seq<char>, c: Rgb8) -> Seq<char> {
    partner_name.push(',') + decimal(color_value(c))
}

/// The payload that asks the lamp `partner_name` to show `c`.
pub fn color_payload(partner_name: &str, c: Rgb8) -> (payload: String)
    ensures
        payload@ == color_payload_spec(partner_name@, c),
{
    let mut payload = partner_name.to_owned();
    payload.append(",");
    let n = encode_color(c);
    proof {
        reveal_strlit(",");
    }
    push_decimal(&mut payload, n);
    payload
}

/// The last `/`-separated segment of a topic.
pub open spec fn topic_leaf(topic: Seq<char>) -> Seq<char> {
    split_spec(topic, '/').last()
}

/// Whether a topic is a colour topic.
pub open spec fn is_color_topic(topic: Seq<char>) -> bool {
    topic_leaf(topic) == "color"@
}

/// Whether a colour message body has a partner field and a second field that
/// reads as a `u32`.
pub open spec fn color_data_well_formed(data: Seq<char>) -> bool {
    let fields = split_spec(data, ',');
    fields.len() >= 2 && parse_u32_spec(fields[1]) is Some
}

/// The state a lamp named `device_name` in state `current` takes on a message:
/// `None` when the message is not a colour for it or the state has no colour to change.
pub open spec fn message_effect(
    topic: Seq<char>,
    data: Seq<char>,
    device_name: Seq<char>,
    current: LedState,
) -> Option<LedState> {
    let fields = split_spec(data, ',');
    if is_color_topic(topic) && fields[0] == device_name {
        let color = color_of(parse_u32_spec(fields[1]).unwrap());
        match current {
            LedState::Color(_) => Some(LedState::Color(color)),
            LedState::PreviewColor(_, preview) => Some(LedState::PreviewColor(color, preview)),
            _ => None,
        }
    } else {
        None
    }
}

/// Whether the last `/`-separated segment of `topic` is `color`.
pub fn topic_is_color(topic: &str) -> (is_color: bool)
    ensures
        is_color == is_color_topic(topic@),
{
    let t = chars_of(topic);
    let segments = split(&t, '/');
    proof {
        lemma_split_len(t@, '/');
    }
    let leaf = &segments[segments.len() - 1];
    let color = chars_of("color");
    chars_eq(leaf, &color)
}

/// Whether `process_message` accepts a message: a colour topic must carry a
/// well-formed body; any other topic is ignored.
pub fn message_well_formed(topic: &str, data: &str) -> (ok: bool)
    ensures
        ok == (is_color_topic(topic@) ==> color_data_well_formed(data@)),
{
    if !topic_is_color(topic) {
        return true;
    }
    let d = chars_of(data);
    let fields = split(&d, ',');
    if fields.len() < 2 {
        return false;
    }
    parse_u32(&fields[1]).is_some()
}

/// Handles a message on `topic` for the lamp `device_name` in state `current`:
/// a colour addressed to this lamp replaces its own colour, keeping a preview
/// that is running. Returns the new state, or `None` when nothing changes.
pub fn process_message(topic: &str, data: &str, device_name: &str, current: LedState) -> (next:
    Option<LedState>)
    requires
        is_color_topic(topic@) ==> color_data_well_formed(data@),
    ensures
        next == message_effect(topic@, data@, device_name@, current),
        next is Some ==> addressed_to(data@, device_name@),
{
    proof {
        lemma_only_addressed_messages_apply(topic@, data@, device_name@, current);
    }
    if !topic_is_color(topic) {
        return None;
    }
    let d = chars_of(data);
    let fields = split(&d, ',');
    let partner = &fields[0];
    let value = parse_u32(&fields[1]).unwrap();
    let color = decode_color(value);
    let name = chars_of(device_name);
    if chars_eq(partner, &name) {
        match current {
            LedState::Color(_) => Some(LedState::Color(color)),
            LedState::PreviewColor(_, preview) => Some(LedState::PreviewColor(color, preview)),
            _ => None,
        }
    } else {
        None
    }
}

} // verus!

verus! {

/// Unpacking a packed colour gives the colour back.
pub proof fn lemma_color_roundtrip(c: Rgb8)
    ensures
        color_value(c) < 0x100_0000,
        color_of(color_value(c) as u32) == c,
{
    let r = c.r;
    let g = c.g;
    let b = c.b;
    let n: int = (r as int) * 65536 + (g as int) * 256 + (b as int);
    assert(n / 65536 % 256 == r && n / 256 % 256 == g && n % 256 == b && n < 0x100_0000)
        by (nonlinear_arith)
        requires
            n == (r as int) * 65536 + (g as int) * 256 + (b as int),
            0 <= r,
            0 <= g,
            0 <= b,
            r < 256,
            g < 256,
            b < 256,
    ;
}

/// Packing an unpacked value gives its low 24 bits.
pub proof fn lemma_value_roundtrip(n: u32)
    ensures
        color_value(color_of(n)) == n % 0x100_0000,
{
    assert((n / 65536) % 256 * 65536 + (n / 256) % 256 * 256 + n % 256 == n % 0x100_0000)
        by (nonlinear_arith);
}

/// Every topic made by `color_topic` is a colour topic.
pub proof fn lemma_color_topic_recognised(uuid: Seq<char>)
    ensures
        is_color_topic(uuid + "/color"@),
{
    reveal_strlit("/color");
    reveal_strlit("color");
    let tail: Seq<char> = "color"@;
    assert(!tail.contains('/')) by {
        if tail.contains('/') {
            let k = choose|k: int| 0 <= k < tail.len() && tail[k] == '/';
            assert(tail[k] != '/');
        }
    }
    crate::text::lemma_split_push_sep(uuid, '/');
    crate::text::lemma_split_append_plain(uuid.push('/'), tail, '/');
    assert(uuid + "/color"@ == uuid.push('/') + tail);
    assert(Seq::<char>::empty() + tail == tail);
}

/// A decimal representation holds no comma.
proof fn lemma_decimal_no_comma(n: nat)
    ensures
        !decimal(n).contains(','),
{
    crate::text::lemma_decimal_digits(n);
    if decimal(n).contains(',') {
        let k = choose|k: int| 0 <= k < decimal(n).len() && decimal(n)[k] == ',';
        assert(crate::text::is_digit(decimal(n)[k]));
    }
}

/// What one lamp sends to its partner is what the partner shows: a payload made
/// by `color_payload` for a lamp whose name holds no comma, received on a colour
/// topic by that lamp, is well formed and sets the lamp's own colour to the colour
/// sent, keeping a running preview.
pub proof fn lemma_message_roundtrip(
    topic: Seq<char>,
    name: Seq<char>,
    c: Rgb8,
    current: LedState,
)
    requires
        is_color_topic(topic),
        !name.contains(','),
    ensures
        color_data_well_formed(color_payload_spec(name, c)),
        message_effect(topic, color_payload_spec(name, c), name, current) == match current {
            LedState::Color(_) => Some(LedState::Color(c)),
            LedState::PreviewColor(_, preview) => Some(LedState::PreviewColor(c, preview)),
            _ => None,
        },
{
    let n = color_value(c);
    lemma_color_roundtrip(c);
    lemma_decimal_no_comma(n);
    lemma_split_two(name, decimal(n), ',');
    lemma_parse_decimal(n as u32);
}

} // verus!

verus! {

/// Whether a message body starts with `name` followed by a comma, `name` itself
/// holding no comma: the body names that lamp as its receiver.
pub open spec fn addressed_to(data: Seq<char>, name: Seq<char>) -> bool {
    &&& !name.contains(',')
    &&& data.len() > name.len()
    &&& data.take(name.len() as int) == name
    &&& data[name.len() as int] == ','
}

/// Only a message addressed to this lamp changes its state: whenever a
/// well-formed message has an effect, its body begins with this lamp's name and
/// a comma.
pub proof fn lemma_only_addressed_messages_apply(
    topic: Seq<char>,
    data: Seq<char>,
    name: Seq<char>,
    current: LedState,
)
    requires
        is_color_topic(topic) ==> color_data_well_formed(data),
    ensures
        message_effect(topic, data, name, current) is Some ==> addressed_to(data, name),
{
    crate::text::lemma_split_first(data, ',');
    if message_effect(topic, data, name, current) is Some {
        let f = split_spec(data, ',')[0];
        assert(f == name);
    }
}

/// A well-formed message on a colour topic addressed to this lamp changes the
/// colour of a lamp that shows or previews one, and never that of a lamp that is
/// connecting or being set up.
pub proof fn lemma_addressed_messages_apply(
    topic: Seq<char>,
    name: Seq<char>,
    rest: Seq<char>,
    current: LedState,
)
    requires
        is_color_topic(topic),
        !name.contains(','),
        color_data_well_formed(name.push(',') + rest),
    ensures
        (current is Color || current is PreviewColor) ==> message_effect(
            topic,
            name.push(',') + rest,
            name,
            current,
        ) is Some,
        (current is Connecting || current is Setup) ==> message_effect(
            topic,
            name.push(',') + rest,
            name,
            current,
        ) is None,
{
    crate::text::lemma_split_first_is(name, rest, ',');
}

} // verus!
