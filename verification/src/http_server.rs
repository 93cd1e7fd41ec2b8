use vstd::prelude::*;
use vstd::string::StringExecFns;

use crate::led::{LedState, Rgb8};
use crate::mqtt::{color_of, decode_color};
use crate::payload::{payload_map, payload_well_formed_spec, read_payload};
use crate::text::{
    chars_of, decimal, parse_u32, parse_u32_spec, push_all, push_decimal, replace, replace_spec,
    string_of,
};
use crate::wifi::{format_ip, ip_text};

verus! {

/// The marker `{% key %}` that a template holds where the value of `key` goes.
pub open spec fn placeholder(key: Seq<char>) -> Seq<char> {
    seq!['{', '%', ' '] + key + seq![' ', '%', '}']
}

/// A template with the context's entries filled in, one after another in the
/// context's order.
pub open spec fn template_spec(html: Seq<char>, context: Seq<(Seq<char>, Seq<char>)>) -> Seq<char>
    decreases context.len(),
{
    if context.len() == 0 {
        html
    } else {
        replace_spec(
            template_spec(html, context.drop_last()),
            placeholder(context.last().0),
            context.last().1,
        )
    }
}

/// The views of a sequence of string pairs.
pub open spec fn context_views(context: Seq<(String, String)>) -> Seq<(Seq<char>, Seq<char>)> {
    Seq::new(context.len(), |i: int| (context[i].0@, context[i].1@))
}

fn placeholder_chars(key: &str) -> (p: Vec<char>)
    ensures
        p@ == placeholder(key@),
{
    let mut p: Vec<char> = Vec::new();
    p.push('{');
    p.push('%');
    p.push(' ');
    let k = chars_of(key);
    push_all(&mut p, &k);
    p.push(' ');
    p.push('%');
    p.push('}');
    p
}

/// Fills the placeholders `{% key %}` of `html` with the context's values.
pub fn template(html: String, context: Vec<(String, String)>) -> (page: String)
    ensures
        page@ == template_spec(html@, context_views(context@)),
{
    let ghost ctx = context_views(context@);
    let mut cur = chars_of(html.as_str());
    let mut i: usize = 0;
    while i < context.len()
        invariant
            i <= context@.len(),
            ctx == context_views(context@),
            cur@ == template_spec(html@, ctx.take(i as int)),
        decreases context.len() - i,
    {
        let pat = placeholder_chars(context[i].0.as_str());
        let val = chars_of(context[i].1.as_str());
        cur = replace(&cur, &pat, &val);
        assert(ctx.take(i + 1).drop_last() == ctx.take(i as int));
        i = i + 1;
    }
    assert(ctx.take(ctx.len() as int) == ctx);
    string_of(&cur)
}

/// The marker in the page frame where a page's content goes.
pub open spec fn content_marker() -> Seq<char> {
    "{% content %}"@
}

/// The page frame `base` with `content` in place of its content marker.
pub open spec fn inject_spec(base: Seq<char>, content: Seq<char>) -> Seq<char> {
    replace_spec(base, content_marker(), content)
}

/// Places `content` in the page frame `base`.
pub fn inject_to_body(base: &str, content: String) -> (page: String)
    ensures
        page@ == inject_spec(base@, content@),
{
    let b = chars_of(base);
    let marker = chars_of("{% content %}");
    proof {
        reveal_strlit("{% content %}");
    }
    let c = chars_of(content.as_str());
    let out = replace(&b, &marker, &c);
    string_of(&out)
}

/// `true` or `false`, as `bool`'s `Display` writes it.
pub open spec fn bool_text(b: bool) -> Seq<char> {
    if b {
        "true"@
    } else {
        "false"@
    }
}

/// The context of the start page: whether the lamp is on a network, and its address.
pub open spec fn index_context(ip: Seq<u8>) -> Seq<(Seq<char>, Seq<char>)> {
    let connected = ip_text(ip) != "0.0.0.0"@;
    seq![("is_setup"@, bool_text(connected)), ("ip"@, ip_text(ip))]
}

/// The start page for a lamp whose station address is `ip`.
pub fn index(base: &str, index_html: &str, ip: [u8; 4]) -> (page: String)
    ensures
        page@ == inject_spec(base@, template_spec(index_html@, index_context(ip@))),
{
    let connected = crate::wifi::is_connected(ip);
    let flag = if connected {
        "true".to_owned()
    } else {
        "false".to_owned()
    };
    let mut context: Vec<(String, String)> = Vec::new();
    context.push(("is_setup".to_owned(), flag));
    context.push(("ip".to_owned(), format_ip(ip)));
    assert(context_views(context@) == index_context(ip@));
    let html = template(index_html.to_owned(), context);
    inject_to_body(base, html)
}

/// The CSS text `rgb(r, g, b)` of a colour.
pub open spec fn rgb_text(c: Rgb8) -> Seq<char> {
    "rgb("@ + decimal(c.r as nat) + ", "@ + decimal(c.g as nat) + ", "@ + decimal(c.b as nat)
        + ")"@
}

/// The CSS text `rgb(r, g, b)` of a colour.
pub fn format_rgb(c: Rgb8) -> (s: String)
    ensures
        s@ == rgb_text(c),
{
    let mut s = "rgb(".to_owned();
    push_decimal(&mut s, c.r as u32);
    s.append(", ");
    push_decimal(&mut s, c.g as u32);
    s.append(", ");
    push_decimal(&mut s, c.b as u32);
    s.append(")");
    s
}

/// The colour page, showing the lamp's own colour `current`.
pub fn color(base: &str, color_html: &str, current: Rgb8) -> (page: String)
    ensures
        page@ == inject_spec(
            base@,
            template_spec(color_html@, seq![("current_color"@, rgb_text(current))]),
        ),
{
    let mut context: Vec<(String, String)> = Vec::new();
    context.push(("current_color".to_owned(), format_rgb(current)));
    assert(context_views(context@) == seq![("current_color"@, rgb_text(current))]);
    let html = template(color_html.to_owned(), context);
    inject_to_body(base, html)
}

/// The set-up page.
pub fn setup(base: &str, setup_html: &str) -> (page: String)
    ensures
        page@ == inject_spec(base@, setup_html@),
{
    inject_to_body(base, setup_html.to_owned())
}

/// The pieces joined, with `sep` between each two.
pub open spec fn join_spec(pieces: Seq<Seq<char>>, sep: Seq<char>) -> Seq<char>
    decreases pieces.len(),
{
    if pieces.len() == 0 {
        Seq::empty()
    } else if pieces.len() == 1 {
        pieces[0]
    } else {
        join_spec(pieces.drop_last(), sep) + sep + pieces.last()
    }
}

/// The network list: the option template once per network, with the network's
/// name in place of `{% ssid %}`, one per line.
pub open spec fn network_options_spec(option: Seq<char>, ssids: Seq<Seq<char>>) -> Seq<char> {
    join_spec(
        Seq::new(ssids.len(), |i: int| replace_spec(option, "{% ssid %}"@, ssids[i])),
        seq!['\n'],
    )
}

/// The list of networks found in a scan, one option per network.
pub fn network_options(option: &str, ssids: &Vec<String>) -> (list: String)
    ensures
        list@ == network_options_spec(
            option@,
            Seq::new(ssids@.len(), |i: int| ssids@[i]@),
        ),
{
    let ghost names = Seq::new(ssids@.len(), |i: int| ssids@[i]@);
    let ghost items = Seq::new(
        names.len(),
        |i: int| replace_spec(option@, "{% ssid %}"@, names[i]),
    );
    let o = chars_of(option);
    let marker = chars_of("{% ssid %}");
    proof {
        reveal_strlit("{% ssid %}");
    }
    let mut out: Vec<char> = Vec::new();
    let mut i: usize = 0;
    while i < ssids.len()
        invariant
            i <= ssids@.len(),
            o@ == option@,
            marker@ == "{% ssid %}"@,
            marker@.len() > 0,
            names == Seq::new(ssids@.len(), |i: int| ssids@[i]@),
            items == Seq::new(
                names.len(),
                |i: int| replace_spec(option@, "{% ssid %}"@, names[i]),
            ),
            out@ == join_spec(items.take(i as int), seq!['\n']),
        decreases ssids.len() - i,
    {
        let name = chars_of(ssids[i].as_str());
        let item = replace(&o, &marker, &name);
        if i > 0 {
            out.push('\n');
        }
        push_all(&mut out, &item);
        proof {
            let t = items.take(i + 1);
            assert(t.drop_last() == items.take(i as int));
            assert(t.last() == item@);
            if i == 0 {
                assert(items.take(0) == Seq::<Seq<char>>::empty());
                assert(Seq::<char>::empty() + item@ == item@);
            }
        }
        i = i + 1;
    }
    assert(items.take(items.len() as int) == items);
    string_of(&out)
}

/// The value of a form field, or the empty text when it is missing.
pub open spec fn field_or_empty(payload: Seq<char>, key: Seq<char>) -> Seq<char> {
    if payload_map(payload).contains_key(key) {
        payload_map(payload)[key]
    } else {
        Seq::empty()
    }
}

/// The network name and password from the Wi-Fi settings form; a missing field
/// reads as empty.
pub fn wifi_credentials(payload: &str) -> (creds: (String, String))
    requires
        payload_well_formed_spec(payload@),
    ensures
        creds.0@ == field_or_empty(payload@, "ssid"@),
        creds.1@ == field_or_empty(payload@, "password"@),
{
    let body = read_payload(payload);
    let ssid = match body.get("ssid") {
        Some(s) => s.to_owned(),
        None => String::new(),
    };
    let password = match body.get("password") {
        Some(s) => s.to_owned(),
        None => String::new(),
    };
    (ssid, password)
}

/// The text of the `color` field of the colour form, `0` when it is missing.
pub open spec fn color_field(payload: Seq<char>) -> Seq<char> {
    if payload_map(payload).contains_key("color"@) {
        payload_map(payload)["color"@]
    } else {
        "0"@
    }
}

/// The state that the colour form asks for, from the lamp's own colour
/// `current`: a preview of the chosen colour over `current`, or `None` when the
/// colour field is not a number.
pub open spec fn color_request_spec(payload: Seq<char>, current: Rgb8) -> Option<LedState> {
    match parse_u32_spec(color_field(payload)) {
        Some(n) => Some(LedState::PreviewColor(current, color_of(n))),
        None => None,
    }
}

/// Reads the colour form: the field `color` holds the colour as a decimal
/// `0xRRGGBB` value. Gives the preview to show over the lamp's own colour
/// `current`, or `None` when the field is not a number.
pub fn set_color_request(payload: &str, current: Rgb8) -> (next: Option<LedState>)
    requires
        payload_well_formed_spec(payload@),
    ensures
        next == color_request_spec(payload@, current),
{
    let body = read_payload(payload);
    let field = match body.get("color") {
        Some(s) => chars_of(s),
        None => chars_of("0"),
    };
    match parse_u32(&field) {
        Some(n) => Some(LedState::PreviewColor(current, decode_color(n))),
        None => None,
    }
}

} // verus!

verus! {

/// A colour chosen on the colour page is previewed over the lamp's own colour,
/// keeps the lamp's own colour as its own, and after the preview is sent to the
/// partner lamp, which then shows exactly that colour as its own.
pub proof fn lemma_chosen_color_reaches_partner(
    payload: Seq<char>,
    own: Rgb8,
    topic: Seq<char>,
    partner_name: Seq<char>,
    partner_color: Rgb8,
)
    requires
        color_request_spec(payload, own) is Some,
        crate::mqtt::is_color_topic(topic),
        !partner_name.contains(','),
    ensures
        ({
            let preview = color_request_spec(payload, own).unwrap();
            let chosen = color_of(parse_u32_spec(color_field(payload)).unwrap());
            &&& preview == LedState::PreviewColor(own, chosen)
            &&& crate::led::state_color(preview) == own
            &&& crate::led::run(preview, 0, 513) == (LedState::Color(own), 1int)
            &&& crate::led::step(preview, 512).2 == Some(chosen)
            &&& crate::mqtt::message_effect(
                topic,
                crate::mqtt::color_payload_spec(partner_name, chosen),
                partner_name,
                LedState::Color(partner_color),
            ) == Some(LedState::Color(chosen))
        }),
{
    let chosen = color_of(parse_u32_spec(color_field(payload)).unwrap());
    crate::led::lemma_preview_ends(own, chosen);
    crate::mqtt::lemma_message_roundtrip(topic, partner_name, chosen, LedState::Color(partner_color));
}

} // verus!

verus! {

/// Filling with one entry is replacing its placeholder.
proof fn lemma_template_single(html: Seq<char>, key: Seq<char>, value: Seq<char>)
    ensures
        template_spec(html, seq![(key, value)]) == replace_spec(html, placeholder(key), value),
{
    let ctx = seq![(key, value)];
    assert(ctx.drop_last() == Seq::<(Seq<char>, Seq<char>)>::empty());
    assert(template_spec(html, ctx.drop_last()) == html);
    assert(ctx.last() == (key, value));
}

/// Filling a template fills every occurrence of a placeholder: a template that is
/// `a`, the placeholder of `key`, and `b`, with no other occurrence of the
/// placeholder crossing either of its edges, fills to the filled `a`, the value,
/// and the filled `b`.
pub proof fn lemma_template_fills_every_placeholder(
    a: Seq<char>,
    b: Seq<char>,
    key: Seq<char>,
    value: Seq<char>,
)
    requires
        !crate::text::straddles(a + placeholder(key) + b, a.len() as int, placeholder(key)),
        !crate::text::straddles(
            a + placeholder(key) + b,
            (a.len() + placeholder(key).len()) as int,
            placeholder(key),
        ),
    ensures
        template_spec(a + placeholder(key) + b, seq![(key, value)]) == template_spec(
            a,
            seq![(key, value)],
        ) + value + template_spec(b, seq![(key, value)]),
{
    lemma_template_single(a + placeholder(key) + b, key, value);
    lemma_template_single(a, key, value);
    lemma_template_single(b, key, value);
    crate::text::lemma_replace_every_occurrence(a, b, placeholder(key), value);
}

/// A template without the placeholder of `key` is left as it is.
pub proof fn lemma_template_without_placeholder(html: Seq<char>, key: Seq<char>, value: Seq<char>)
    requires
        forall|i: int| !#[trigger] crate::text::occurs_at(html, placeholder(key), i),
    ensures
        template_spec(html, seq![(key, value)]) == html,
{
    lemma_template_single(html, key, value);
    let p = placeholder(key);
    assert forall|i: int| 0 <= i && i + p.len() <= html.len() implies #[trigger] html.subrange(
        i,
        i + p.len(),
    ) != p by {
        assert(!crate::text::occurs_at(html, p, i));
    }
    crate::text::lemma_replace_absent(html, p, value);
}

/// One option of the network list: the option template filled for one network.
proof fn lemma_network_option_single(option: Seq<char>, name: Seq<char>)
    ensures
        network_options_spec(option, seq![name]) == replace_spec(option, "{% ssid %}"@, name),
{
    let items = Seq::new(1, |i: int| replace_spec(option, "{% ssid %}"@, seq![name][i]));
    assert(items.len() == 1);
    assert(items[0] == replace_spec(option, "{% ssid %}"@, name));
}

/// Every `{% ssid %}` of the option template gets the network's name: an option
/// template that is `a`, the marker, and `b`, with no other marker crossing
/// either edge of it, gives the option for `a`, the name, and the option for `b`.
pub proof fn lemma_network_option_every_marker(a: Seq<char>, b: Seq<char>, name: Seq<char>)
    requires
        !crate::text::straddles(a + "{% ssid %}"@ + b, a.len() as int, "{% ssid %}"@),
        !crate::text::straddles(
            a + "{% ssid %}"@ + b,
            (a.len() + "{% ssid %}"@.len()) as int,
            "{% ssid %}"@,
        ),
    ensures
        network_options_spec(a + "{% ssid %}"@ + b, seq![name]) == network_options_spec(
            a,
            seq![name],
        ) + name + network_options_spec(b, seq![name]),
{
    reveal_strlit("{% ssid %}");
    lemma_network_option_single(a + "{% ssid %}"@ + b, name);
    lemma_network_option_single(a, name);
    lemma_network_option_single(b, name);
    crate::text::lemma_replace_every_occurrence(a, b, "{% ssid %}"@, name);
}

/// The list has one line per network, in the order of the scan: adding a network
/// adds a newline and its option at the end.
pub proof fn lemma_network_options_lines(option: Seq<char>, names: Seq<Seq<char>>, name: Seq<char>)
    requires
        names.len() > 0,
    ensures
        network_options_spec(option, names.push(name)) == network_options_spec(option, names)
            + seq!['\n'] + network_options_spec(option, seq![name]),
{
    let all = names.push(name);
    let items = Seq::new(all.len(), |i: int| replace_spec(option, "{% ssid %}"@, all[i]));
    let front = Seq::new(names.len(), |i: int| replace_spec(option, "{% ssid %}"@, names[i]));
    assert(items.drop_last() == front);
    assert(items.last() == replace_spec(option, "{% ssid %}"@, name));
    lemma_network_option_single(option, name);
}

} // verus!
