use lamp::http_server::{
    color, index, inject_to_body, network_options, set_color_request, setup, template,
    wifi_credentials,
};
use lamp::led::{Frame, LedController, LedState, Rgb8, PIXEL_COUNT};
use lamp::mqtt::{
    color_payload, color_topic, decode_color, encode_color, message_well_formed, process_message,
    topic_is_color,
};
use lamp::payload::{payload_well_formed, read_payload};
use lamp::text::{chars_of, parse_u32, replace, split, string_of};
use lamp::utils::netif_key;
use lamp::wifi::{auth_method, find_channel, format_ip, is_connected, normalize_ssid, AccessPoint, AuthChoice};

fn chars(s: &str) -> Vec<char> {
    s.chars().collect()
}

fn rgb(r: u8, g: u8, b: u8) -> Rgb8 {
    Rgb8::new(r, g, b)
}

#[test]
fn color_topic_appends_suffix() {
    assert_eq!(color_topic("1234-abcd"), "1234-abcd/color");
    assert_eq!(color_topic(""), "/color");
}

#[test]
fn encode_color_packs_channels() {
    assert_eq!(encode_color(rgb(0x12, 0x34, 0x56)), 0x123456);
    assert_eq!(encode_color(rgb(255, 255, 255)), 16777215);
    assert_eq!(encode_color(rgb(0, 0, 0)), 0);
}

#[test]
fn decode_color_unpacks_low_bits() {
    assert_eq!(decode_color(0x123456), rgb(0x12, 0x34, 0x56));
    assert_eq!(decode_color(0xff00_80ff), rgb(0x00, 0x80, 0xff));
    assert_eq!(decode_color(16711680), rgb(255, 0, 0));
}

#[test]
fn color_roundtrip_on_values() {
    for c in [rgb(1, 2, 3), rgb(255, 0, 128), rgb(0, 0, 0), rgb(255, 255, 255)] {
        assert_eq!(decode_color(encode_color(c)), c);
    }
}

#[test]
fn color_payload_has_name_and_decimal() {
    assert_eq!(color_payload("Partner", rgb(1, 2, 3)), "Partner,66051");
    assert_eq!(color_payload("x", rgb(0, 0, 0)), "x,0");
    assert_eq!(color_payload("lamp-b", rgb(255, 255, 255)), "lamp-b,16777215");
}

#[test]
fn message_for_this_lamp_sets_colour() {
    let next = process_message("uuid/color", "me,16711680", "me", LedState::Color(rgb(0, 0, 1)));
    assert_eq!(next, Some(LedState::Color(rgb(255, 0, 0))));
}

#[test]
fn message_keeps_running_preview() {
    let cur = LedState::PreviewColor(rgb(1, 1, 1), rgb(9, 9, 9));
    let next = process_message("a/b/color", "me,255", "me", cur);
    assert_eq!(next, Some(LedState::PreviewColor(rgb(0, 0, 255), rgb(9, 9, 9))));
}

#[test]
fn message_for_other_lamp_is_ignored() {
    let next = process_message("uuid/color", "other,255", "me", LedState::Color(rgb(0, 0, 1)));
    assert_eq!(next, None);
}

#[test]
fn message_on_other_topic_is_ignored() {
    let next = process_message("uuid/brightness", "garbage", "me", LedState::Color(rgb(0, 0, 1)));
    assert_eq!(next, None);
}

#[test]
fn message_without_colour_state_is_ignored() {
    assert_eq!(process_message("u/color", "me,5", "me", LedState::Setup), None);
    assert_eq!(process_message("u/color", "me,5", "me", LedState::Connecting), None);
}

#[test]
fn message_with_extra_fields_uses_second() {
    let next = process_message("color", "me,7,8", "me", LedState::Color(rgb(0, 0, 1)));
    assert_eq!(next, Some(LedState::Color(rgb(0, 0, 7))));
}

#[test]
fn message_roundtrip_between_lamps() {
    let c = rgb(12, 200, 7);
    let payload = color_payload("lamp-b", c);
    let topic = color_topic("some-uuid");
    assert!(message_well_formed(&topic, &payload));
    let next = process_message(&topic, &payload, "lamp-b", LedState::Color(rgb(0, 0, 0)));
    assert_eq!(next, Some(LedState::Color(c)));
}

#[test]
fn message_well_formed_cases() {
    assert!(message_well_formed("x/color", "a,12"));
    assert!(!message_well_formed("x/color", "a"));
    assert!(!message_well_formed("x/color", "a,1x"));
    assert!(!message_well_formed("x/color", "a,99999999999"));
    assert!(message_well_formed("x/other", "anything"));
    assert!(message_well_formed("color/x", "anything"));
}

#[test]
fn parse_u32_matches_std() {
    let cases = [
        "", "+", "-", "0", "+0", "-0", "7", "+42", "-5", "007", "4294967295", "4294967296",
        "99999999999", "12a", "a12", " 1", "1 ", "++1", "+-1", "１",
    ];
    for case in cases {
        assert_eq!(parse_u32(&chars(case)), case.parse::<u32>().ok(), "case {:?}", case);
    }
}

#[test]
fn replace_matches_std() {
    let cases = [
        ("aaa", "aa", "b"),
        ("hello {% x %} and {% x %}", "{% x %}", "X"),
        ("abc", "d", "zz"),
        ("", "a", "b"),
        ("abab", "ab", "abab"),
        ("My+Home+", "+", " "),
        ("ééé", "é", "e"),
    ];
    for (s, pat, rep) in cases {
        let out = replace(&chars(s), &chars(pat), &chars(rep));
        assert_eq!(string_of(&out), s.replace(pat, rep));
    }
}

#[test]
fn split_matches_std() {
    let cases = ["a&b&c", "", "&", "a&&b", "&a&", "abc"];
    for s in cases {
        let pieces = split(&chars(s), '&');
        let got: Vec<String> = pieces.iter().map(|p| string_of(p)).collect();
        let want: Vec<String> = s.split('&').map(|p| p.to_string()).collect();
        assert_eq!(got, want);
    }
}

#[test]
fn chars_and_strings_roundtrip() {
    assert_eq!(chars_of("grün"), vec!['g', 'r', 'ü', 'n']);
    assert_eq!(string_of(&['a', 'ß']), "aß");
}

#[test]
fn read_payload_gets_fields() {
    let body = read_payload("ssid=My+Net&password=secret");
    assert_eq!(body.get("ssid"), Some("My+Net"));
    assert_eq!(body.get("password"), Some("secret"));
    assert_eq!(body.get("color"), None);
}

#[test]
fn read_payload_later_field_wins() {
    let body = read_payload("a=1&b=2&a=3");
    assert_eq!(body.get("a"), Some("3"));
    assert_eq!(body.get("b"), Some("2"));
}

#[test]
fn read_payload_value_stops_at_second_equals() {
    let body = read_payload("a=b=c&d=");
    assert_eq!(body.get("a"), Some("b"));
    assert_eq!(body.get("d"), Some(""));
}

#[test]
fn payload_well_formed_cases() {
    assert!(payload_well_formed("a=1"));
    assert!(payload_well_formed("a=1&b="));
    assert!(payload_well_formed("="));
    assert!(!payload_well_formed(""));
    assert!(!payload_well_formed("a"));
    assert!(!payload_well_formed("a=1&b"));
    assert!(!payload_well_formed("a=1&"));
}

#[test]
fn wifi_credentials_reads_form() {
    let (ssid, pass) = wifi_credentials("ssid=Home&password=pw");
    assert_eq!(ssid, "Home");
    assert_eq!(pass, "pw");
    let (ssid, pass) = wifi_credentials("password=only");
    assert_eq!(ssid, "");
    assert_eq!(pass, "only");
}

#[test]
fn set_color_request_previews_over_own_colour() {
    let own = rgb(1, 2, 3);
    assert_eq!(
        set_color_request("color=16711680", own),
        Some(LedState::PreviewColor(own, rgb(255, 0, 0)))
    );
    assert_eq!(set_color_request("color=+255", own), Some(LedState::PreviewColor(own, rgb(0, 0, 255))));
}

#[test]
fn set_color_request_defaults_to_zero() {
    let own = rgb(9, 9, 9);
    assert_eq!(set_color_request("other=1", own), Some(LedState::PreviewColor(own, rgb(0, 0, 0))));
}

#[test]
fn set_color_request_rejects_non_number() {
    assert_eq!(set_color_request("color=%23ff0000", rgb(0, 0, 0)), None);
    assert_eq!(set_color_request("color=", rgb(0, 0, 0)), None);
}

#[test]
fn template_fills_placeholders_in_order() {
    let ctx = vec![
        ("name".to_string(), "World".to_string()),
        ("x".to_string(), "{% name %}".to_string()),
    ];
    assert_eq!(template("Hi {% name %}, {% x %}!".to_string(), ctx), "Hi World, {% name %}!");
    assert_eq!(template("no marks".to_string(), vec![]), "no marks");
}

#[test]
fn inject_to_body_places_content() {
    assert_eq!(
        inject_to_body("<body>{% content %}</body>", "<p>x</p>".to_string()),
        "<body><p>x</p></body>"
    );
    assert_eq!(inject_to_body("<body></body>", "x".to_string()), "<body></body>");
}

#[test]
fn index_page_for_connected_lamp() {
    let page = index("[{% content %}]", "{% is_setup %} {% ip %}", [192, 168, 1, 20]);
    assert_eq!(page, "[true 192.168.1.20]");
}

#[test]
fn index_page_for_unconnected_lamp() {
    let page = index("[{% content %}]", "{% is_setup %} {% ip %}", [0, 0, 0, 0]);
    assert_eq!(page, "[false 0.0.0.0]");
}

#[test]
fn color_page_shows_css_colour() {
    let page = color("<{% content %}>", "c={% current_color %}", rgb(255, 0, 10));
    assert_eq!(page, "<c=rgb(255, 0, 10)>");
}

#[test]
fn setup_page_is_framed() {
    assert_eq!(setup("A{% content %}B", "form"), "AformB");
}

#[test]
fn network_options_one_per_line() {
    let ssids = vec!["Home".to_string(), "Cafe".to_string()];
    assert_eq!(network_options("<o>{% ssid %}</o>", &ssids), "<o>Home</o>\n<o>Cafe</o>");
    assert_eq!(network_options("<o>{% ssid %}</o>", &vec![]), "");
    assert_eq!(network_options("{% ssid %}", &vec!["a".to_string()]), "a");
}

#[test]
fn controller_starts_connecting() {
    let lc = LedController::new();
    assert_eq!(lc.get(), LedState::Connecting);
    assert_eq!(lc.tick_count(), 0);
    assert_eq!(lc.get_current_color(), rgb(255, 255, 255));
}

#[test]
fn write_resets_ticks() {
    let mut lc = LedController::new();
    lc.tick();
    lc.tick();
    assert_eq!(lc.tick_count(), 2);
    lc.write(LedState::Color(rgb(1, 2, 3)));
    assert_eq!(lc.tick_count(), 0);
    assert_eq!(lc.get(), LedState::Color(rgb(1, 2, 3)));
    assert_eq!(lc.get_current_color(), rgb(1, 2, 3));
}

#[test]
fn connecting_dot_runs_round() {
    let mut lc = LedController::new();
    let out = lc.tick();
    let bright = rgb(25, 102, 255);
    let dim = rgb(0, 77, 230);
    match out.frame {
        Frame::Pixels(p) => {
            assert_eq!(p.len(), PIXEL_COUNT);
            assert_eq!(p[0], bright);
            assert_eq!(p[1], dim);
            assert_eq!(p[23], dim);
            assert_eq!(p[2], rgb(0, 0, 0));
        }
        Frame::Breathing(_) => panic!("expected pixels"),
    }
    assert_eq!(out.publish, None);
    for _ in 0..3 {
        lc.tick();
    }
    // tick 4: the dot is on pixel 1
    match lc.tick().frame {
        Frame::Pixels(p) => {
            assert_eq!(p[1], bright);
            assert_eq!(p[0], dim);
            assert_eq!(p[2], dim);
            assert_eq!(p[23], rgb(0, 0, 0));
        }
        Frame::Breathing(_) => panic!("expected pixels"),
    }
    lc.write(LedState::Connecting);
    for _ in 0..92 {
        lc.tick();
    }
    // tick 92: dot on pixel 23, neighbours 22 and 0
    match lc.tick().frame {
        Frame::Pixels(p) => {
            assert_eq!(p[23], bright);
            assert_eq!(p[22], dim);
            assert_eq!(p[0], dim);
        }
        Frame::Breathing(_) => panic!("expected pixels"),
    }
}

#[test]
fn setup_breathes_with_phase() {
    let mut lc = LedController::new();
    lc.write(LedState::Setup);
    assert_eq!(lc.tick().frame, Frame::Breathing(0));
    for _ in 0..254 {
        lc.tick();
    }
    assert_eq!(lc.tick_count(), 255);
    assert_eq!(lc.tick().frame, Frame::Breathing(0));
    assert_eq!(lc.tick().frame, Frame::Breathing(1));
}

#[test]
fn colour_fills_ring() {
    let mut lc = LedController::new();
    let c = rgb(3, 4, 5);
    lc.write(LedState::Color(c));
    assert_eq!(lc.tick().frame, Frame::Pixels(vec![c; 24]));
    assert_eq!(lc.get(), LedState::Color(c));
}

#[test]
fn preview_lasts_then_sends() {
    let own = rgb(1, 1, 1);
    let preview = rgb(200, 0, 0);
    let mut lc = LedController::new();
    lc.write(LedState::PreviewColor(own, preview));
    for _ in 0..512 {
        let out = lc.tick();
        assert_eq!(out.frame, Frame::Pixels(vec![preview; 24]));
        assert_eq!(out.publish, None);
    }
    assert_eq!(lc.get(), LedState::PreviewColor(own, preview));
    assert_eq!(lc.get_current_color(), own);
    let out = lc.tick();
    assert_eq!(out.frame, Frame::Pixels(vec![preview; 24]));
    assert_eq!(out.publish, Some(preview));
    assert_eq!(lc.get(), LedState::Color(own));
    assert_eq!(lc.tick_count(), 1);
    let out = lc.tick();
    assert_eq!(out.frame, Frame::Pixels(vec![own; 24]));
    assert_eq!(out.publish, None);
}

#[test]
fn format_ip_and_connection() {
    assert_eq!(format_ip([192, 168, 4, 1]), "192.168.4.1");
    assert_eq!(format_ip([0, 0, 0, 0]), "0.0.0.0");
    assert!(!is_connected([0, 0, 0, 0]));
    assert!(is_connected([0, 0, 0, 1]));
    assert!(is_connected([10, 0, 0, 0]));
}

#[test]
fn auth_method_by_password() {
    assert_eq!(auth_method(""), AuthChoice::Open);
    assert_eq!(auth_method("secret"), AuthChoice::WPA2Personal);
}

#[test]
fn normalize_ssid_turns_plus_into_space() {
    assert_eq!(normalize_ssid("My+Home+Net"), "My Home Net");
    assert_eq!(normalize_ssid("plain"), "plain");
}

#[test]
fn find_channel_takes_first_match() {
    let aps = vec![
        AccessPoint { ssid: "Other".to_string(), channel: 1 },
        AccessPoint { ssid: "Home".to_string(), channel: 6 },
        AccessPoint { ssid: "Home".to_string(), channel: 11 },
    ];
    assert_eq!(find_channel(&aps, "Home"), Some(6));
    assert_eq!(find_channel(&aps, "Nope"), None);
    assert_eq!(find_channel(&vec![], "Home"), None);
}

#[test]
fn netif_key_joins_name_and_role() {
    assert_eq!(netif_key("lamp1", "sta"), "lamp1_sta");
    assert_eq!(netif_key("lamp1", "ap"), "lamp1_ap");
}

#[test]
fn topic_is_color_checks_last_segment() {
    assert!(topic_is_color("uuid/color"));
    assert!(topic_is_color("color"));
    assert!(topic_is_color(&color_topic("a/b")));
    assert!(!topic_is_color("color/x"));
    assert!(!topic_is_color("uuid/colour"));
    assert!(!topic_is_color(""));
}

#[test]
fn chosen_color_reaches_partner() {
    let own = rgb(10, 20, 30);
    let preview = set_color_request("color=65280", own).unwrap();
    assert_eq!(preview, LedState::PreviewColor(own, rgb(0, 255, 0)));
    let mut lamp_a = LedController::new();
    lamp_a.write(preview);
    let mut sent = Vec::new();
    for _ in 0..513 {
        if let Some(c) = lamp_a.tick().publish {
            sent.push(c);
        }
    }
    assert_eq!(sent, vec![rgb(0, 255, 0)]);
    assert_eq!(lamp_a.get(), LedState::Color(own));
    let payload = color_payload("lamp-b", sent[0]);
    let topic = color_topic("uuid-a");
    let next = process_message(&topic, &payload, "lamp-b", LedState::Color(rgb(1, 1, 1)));
    assert_eq!(next, Some(LedState::Color(rgb(0, 255, 0))));
}

#[test]
fn steady_states_never_change() {
    for state in [LedState::Connecting, LedState::Setup, LedState::Color(rgb(5, 5, 5))] {
        let mut lc = LedController::new();
        lc.write(state);
        for _ in 0..1000 {
            assert_eq!(lc.tick().publish, None);
        }
        assert_eq!(lc.get(), state);
        assert_eq!(lc.tick_count(), 1000);
    }
}
