use kdeconnect::packet::{decode_packet, PacketError};
use kdeconnect::plugin::{
    ConnectivityReportPlugin, InputAction, InputReceivePlugin, MousePadRequest, plan_inputs,
};

fn b(s: &str) -> Vec<u8> {
    s.as_bytes().to_vec()
}

fn request(fields: &str) -> kdeconnect::packet::NetworkPacket {
    decode_packet(&b(&format!(
        "{{\"id\":1,\"type\":\"kdeconnect.mousepad.request\",\"body\":{{{}}}}}",
        fields
    )))
    .unwrap()
}

#[test]
fn connectivity_report_is_read() {
    let wire = b(
        r#"{"id":1,"type":"kdeconnect.connectivity_report","body":{"signalStrengths":{"0":{"networkType":"LTE","signalStrength":3},"1":{"networkType":"5G","signalStrength":4}}}}"#,
    );
    let packet = decode_packet(&wire).unwrap();
    let report = ConnectivityReportPlugin.handle(&packet).unwrap().unwrap();
    assert_eq!(report.signal_strengths.len(), 2);
    assert_eq!(report.signal_strengths[0].sim_id, b("0"));
    assert_eq!(report.signal_strengths[0].network_type, b("LTE"));
    assert_eq!(report.signal_strengths[0].signal_strength, 3);
    assert_eq!(report.signal_strengths[1].sim_id, b("1"));
    assert_eq!(report.signal_strengths[1].network_type, b("5G"));
    assert_eq!(report.signal_strengths[1].signal_strength, 4);
}

#[test]
fn connectivity_request_and_foreign_types_are_ignored() {
    let req =
        decode_packet(&b(r#"{"id":1,"type":"kdeconnect.connectivity_report.request","body":{}}"#))
            .unwrap();
    assert!(ConnectivityReportPlugin.handle(&req).unwrap().is_none());
    let ping = decode_packet(&b(r#"{"id":1,"type":"kdeconnect.ping","body":{}}"#)).unwrap();
    assert!(ConnectivityReportPlugin.handle(&ping).unwrap().is_none());
}

#[test]
fn connectivity_report_bad_body_is_malformed() {
    let no_table =
        decode_packet(&b(r#"{"id":1,"type":"kdeconnect.connectivity_report","body":{}}"#)).unwrap();
    assert_eq!(
        ConnectivityReportPlugin.handle(&no_table).unwrap_err(),
        PacketError::MalformedBody
    );
    let bad_row = decode_packet(&b(
        r#"{"id":1,"type":"kdeconnect.connectivity_report","body":{"signalStrengths":{"0":{"networkType":"LTE"}}}}"#,
    ))
    .unwrap();
    assert_eq!(
        ConnectivityReportPlugin.handle(&bad_row).unwrap_err(),
        PacketError::MalformedBody
    );
}

#[test]
fn connectivity_capabilities() {
    let inc = ConnectivityReportPlugin::incoming_capabilities();
    assert_eq!(inc, vec![b("kdeconnect.connectivity_report"), b("kdeconnect.connectivity_report.request")]);
    let out = ConnectivityReportPlugin::outgoing_capabilities();
    assert_eq!(out, vec![b("kdeconnect.connectivity_report.request")]);
}

#[test]
fn mousepad_move_takes_the_short_path() {
    let packet = request(r#""dx":10,"dy":-3"#);
    let plan = InputReceivePlugin.handle(&packet).unwrap();
    assert_eq!(plan, vec![InputAction::MouseMove { dx: 10, dy: -3 }]);
}

#[test]
fn mousepad_scroll_suppresses_the_move() {
    let packet = request(r#""dx":10,"dy":-3,"scroll":true"#);
    let plan = InputReceivePlugin.handle(&packet).unwrap();
    assert!(plan.is_empty());
}

#[test]
fn mousepad_clicks_press_and_release_together() {
    let packet = request(r#""singleclick":true,"middleclick":true"#);
    let plan = InputReceivePlugin.handle(&packet).unwrap();
    assert_eq!(
        plan,
        vec![
            InputAction::ButtonsDown { left: true, right: false, middle: true },
            InputAction::ButtonsUp { left: true, right: false, middle: true },
        ]
    );
}

#[test]
fn mousepad_doubleclick_appends_two_left_pairs() {
    let packet = request(r#""doubleclick":true"#);
    let plan = InputReceivePlugin.handle(&packet).unwrap();
    assert_eq!(
        plan,
        vec![
            InputAction::ButtonsDown { left: true, right: false, middle: false },
            InputAction::ButtonsUp { left: true, right: false, middle: false },
            InputAction::ButtonsDown { left: true, right: false, middle: false },
            InputAction::ButtonsUp { left: true, right: false, middle: false },
        ]
    );
}

#[test]
fn mousepad_bad_field_shape_is_malformed() {
    let packet = request(r#""singleclick":"yes""#);
    assert_eq!(InputReceivePlugin.handle(&packet).unwrap_err(), PacketError::MalformedBody);
    let packet = request(r#""dx":99999999999"#);
    assert_eq!(InputReceivePlugin.handle(&packet).unwrap_err(), PacketError::MalformedBody);
}

#[test]
fn mousepad_foreign_types_ask_for_nothing() {
    let ping = decode_packet(&b(r#"{"id":1,"type":"kdeconnect.ping","body":{}}"#)).unwrap();
    assert!(InputReceivePlugin.handle(&ping).unwrap().is_empty());
}

#[test]
fn plan_inputs_on_a_plain_request() {
    let req = MousePadRequest {
        singleclick: false,
        doubleclick: false,
        middleclick: false,
        rightclick: true,
        singlehold: false,
        scroll: false,
        dx: None,
        dy: None,
    };
    assert_eq!(
        plan_inputs(&req),
        vec![
            InputAction::ButtonsDown { left: false, right: true, middle: false },
            InputAction::ButtonsUp { left: false, right: true, middle: false },
        ]
    );
}

#[test]
fn input_capabilities() {
    assert_eq!(InputReceivePlugin::incoming_capabilities(), vec![b("kdeconnect.mousepad.request")]);
    assert!(InputReceivePlugin::outgoing_capabilities().is_empty());
}
