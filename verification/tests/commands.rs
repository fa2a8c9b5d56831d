//! Tests for encoding the request lines and decoding the response bodies of
//! every command.
use at_protocol::command::wifi_mode::{
    ecn_from_code, try_get_string_until, AccessPoint, ConnectToAp, GetConnectedAp, GetWifiMode,
    ListAp, SetWifiMode, WifiMode, ECN,
};
use at_protocol::command::{DisconnectFromAp, GetVersion, Restart, Test};
use at_protocol::{Command, Error, NumericField};

fn encoded<T: Command>(cmd: &T) -> Vec<u8> {
    let mut out = Vec::new();
    cmd.encode(&mut out);
    out
}

#[test]
fn encode_self_test() {
    assert_eq!(encoded(&Test), b"AT\r\n");
}

#[test]
fn encode_restart() {
    assert_eq!(encoded(&Restart), b"AT+RST\r\n");
}

#[test]
fn encode_disconnect() {
    assert_eq!(encoded(&DisconnectFromAp), b"AT+CWQAP\r\n");
}

#[test]
fn encode_get_version() {
    assert_eq!(encoded(&GetVersion), b"AT+GMR\r\n");
}

#[test]
fn encode_get_mode() {
    assert_eq!(encoded(&GetWifiMode), b"AT+CWMODE?\r\n");
}

#[test]
fn encode_set_mode_all_digits() {
    assert_eq!(encoded(&SetWifiMode(WifiMode::StationMode)), b"AT+CWMODE=1\r\n");
    assert_eq!(encoded(&SetWifiMode(WifiMode::ApMode)), b"AT+CWMODE=2\r\n");
    assert_eq!(encoded(&SetWifiMode(WifiMode::ApStationMode)), b"AT+CWMODE=3\r\n");
}

#[test]
fn encode_list_ap() {
    assert_eq!(encoded(&ListAp), b"AT+CWLAP\r\n");
}

#[test]
fn encode_connect_to_ap() {
    let cmd = ConnectToAp { ssid: "Home", password: "hunter2" };
    assert_eq!(encoded(&cmd), b"AT+CWJAP=\"Home\",\"hunter2\"\r\n");
}

#[test]
fn encode_connected_query() {
    assert_eq!(encoded(&GetConnectedAp), b"AT+CWJAP?\r\n");
}

#[test]
fn self_test_round_trip() {
    assert_eq!(Test.decode(b"AT\r\n").unwrap(), true);
    assert_eq!(Test.decode(b"AT\r").unwrap(), false);
    assert_eq!(Test.decode(b"AT\r\nX").unwrap(), false);
    assert_eq!(Test.decode(b"XT\r\n").unwrap(), false);
    assert_eq!(Test.decode(b"").unwrap(), false);
}

#[test]
fn restart_and_disconnect_echo() {
    assert_eq!(Restart.decode(b"AT+RST\r\n").unwrap(), true);
    assert_eq!(Restart.decode(b"AT\r\n").unwrap(), false);
    assert_eq!(DisconnectFromAp.decode(b"AT+CWQAP\r\n").unwrap(), true);
    assert_eq!(DisconnectFromAp.decode(b"no").unwrap(), false);
}

#[test]
fn mode_decodes_all_valid_digits() {
    assert_eq!(
        GetWifiMode.decode(b"AT+CWMODE?\r\n+CWMODE:1").unwrap(),
        WifiMode::StationMode
    );
    assert_eq!(GetWifiMode.decode(b"AT+CWMODE?\r\n+CWMODE:2").unwrap(), WifiMode::ApMode);
    assert_eq!(
        GetWifiMode.decode(b"AT+CWMODE?\r\n+CWMODE:3").unwrap(),
        WifiMode::ApStationMode
    );
}

#[test]
fn mode_rejects_other_digits() {
    assert_eq!(
        GetWifiMode.decode(b"AT+CWMODE?\r\n+CWMODE:7"),
        Err(Error::UnknownMode(b'7'))
    );
    assert_eq!(
        GetWifiMode.decode(b"AT+CWMODE?\r\n+CWMODE:0"),
        Err(Error::UnknownMode(b'0'))
    );
}

#[test]
fn mode_without_colon_is_structural_error() {
    assert_eq!(GetWifiMode.decode(b"AT+CWMODE?\r\ngarbage"), Err(Error::MissingDelimiter(b':')));
}

#[test]
fn mode_with_nothing_after_colon() {
    assert_eq!(GetWifiMode.decode(b"AT+CWMODE?\r\n+CWMODE:"), Err(Error::UnexpectedEnd));
}

#[test]
fn set_mode_accepts_any_body() {
    assert_eq!(SetWifiMode(WifiMode::ApMode).decode(b"anything at all"), Ok(()));
    assert_eq!(SetWifiMode(WifiMode::StationMode).decode(b""), Ok(()));
}

#[test]
fn version_decodes_second_line_trimmed() {
    let body = b"AT+GMR\r\n0018000902-AI03\r\n";
    assert_eq!(GetVersion.decode(body).unwrap(), "0018000902-AI03");
}

#[test]
fn version_without_newline_is_error() {
    assert_eq!(GetVersion.decode(b"AT+GMR"), Err(Error::MissingDelimiter(b'\n')));
}

#[test]
fn version_with_invalid_text_is_error() {
    let body = b"AT+GMR\n\xff\xfe";
    assert_eq!(GetVersion.decode(body), Err(Error::InvalidText(vec![0xff, 0xfe])));
}

#[test]
fn list_ap_two_records() {
    let body =
        b"+CWLAP:(0,\"Net1\",-40,\"aa:bb:cc:dd:ee:ff\",6)\r\n+CWLAP:(9,\"Net2\",-70,\"11:22:33:44:55:66\",11)";
    let aps = ListAp.decode(body).unwrap();
    assert_eq!(aps.len(), 2);
    assert_eq!(
        aps[0],
        AccessPoint {
            ecn: ECN::Open,
            ssid: "Net1".to_string(),
            rssi: -40,
            mac: "aa:bb:cc:dd:ee:ff".to_string(),
            channel: 6,
        }
    );
    assert_eq!(aps[1].ecn, ECN::Unknown(9));
    assert_eq!(aps[1].ssid, "Net2");
    assert_eq!(aps[1].rssi, -70);
    assert_eq!(aps[1].channel, 11);
}

#[test]
fn list_ap_skips_lines_without_prefix() {
    let body = b"AT+CWLAP\r\n+CWLAP:(3,\"x\",-1,\"m\",1)\r\nnoise";
    let aps = ListAp.decode(body).unwrap();
    assert_eq!(aps.len(), 1);
    assert_eq!(aps[0].ecn, ECN::WPA2_PSK);
    assert_eq!(aps[0].ssid, "x");
}

#[test]
fn list_ap_empty_body() {
    assert_eq!(ListAp.decode(b"").unwrap(), Vec::new());
}

#[test]
fn list_ap_name_with_embedded_comma() {
    let body = b"+CWLAP:(2,\"a,b\",-55,\"mac\",3)";
    let aps = ListAp.decode(body).unwrap();
    assert_eq!(aps.len(), 1);
    assert_eq!(aps[0].ssid, "a,b");
    assert_eq!(aps[0].rssi, -55);
}

#[test]
fn list_ap_bad_ecn() {
    let body = b"+CWLAP:(x,\"n\",-1,\"m\",1)";
    assert_eq!(
        ListAp.decode(body),
        Err(Error::InvalidNumber(NumericField::Ecn, b"x".to_vec()))
    );
}

#[test]
fn list_ap_bad_rssi() {
    let body = b"+CWLAP:(1,\"n\",low,\"m\",1)";
    assert_eq!(
        ListAp.decode(body),
        Err(Error::InvalidNumber(NumericField::Rssi, b"low".to_vec()))
    );
}

#[test]
fn list_ap_bad_channel() {
    let body = b"+CWLAP:(1,\"n\",-1,\"m\",999)";
    assert_eq!(
        ListAp.decode(body),
        Err(Error::InvalidNumber(NumericField::Channel, b"999".to_vec()))
    );
}

#[test]
fn list_ap_missing_field_delimiter() {
    let body = b"+CWLAP:(1,\"n\",-1)";
    assert_eq!(ListAp.decode(body), Err(Error::MissingDelimiter(b',')));
}

#[test]
fn list_ap_missing_closing_parenthesis() {
    let body = b"+CWLAP:(1,\"n\",-1,\"m\",3";
    assert_eq!(ListAp.decode(body), Err(Error::MissingDelimiter(b')')));
}

#[test]
fn list_ap_invalid_ssid_text() {
    let body = b"+CWLAP:(1,\"\xff\",-1,\"m\",3)";
    assert_eq!(ListAp.decode(body), Err(Error::InvalidText(vec![0xff])));
}

#[test]
fn split_until_basic() {
    let (field, rest) = try_get_string_until(b"12,rest", b',').unwrap();
    assert_eq!(field, b"12");
    assert_eq!(rest, b"rest");
}

#[test]
fn split_until_strips_quotes() {
    let (field, rest) = try_get_string_until(b"\"net\",tail", b',').unwrap();
    assert_eq!(field, b"net");
    assert_eq!(rest, b"tail");
}

#[test]
fn split_until_keeps_quoted_delimiter() {
    let (field, rest) = try_get_string_until(b"\"a,b\",tail", b',').unwrap();
    assert_eq!(field, b"a,b");
    assert_eq!(rest, b"tail");
}

#[test]
fn split_until_missing_delimiter() {
    assert_eq!(
        try_get_string_until(b"no delimiter here", b','),
        Err(Error::MissingDelimiter(b','))
    );
}

#[test]
fn connected_ap_none() {
    assert_eq!(GetConnectedAp.decode(b"AT+CWJAP?\r\nNo AP").unwrap(), None);
}

#[test]
fn connected_ap_some() {
    let body = b"AT+CWJAP?\r\n+CWJAP:\"Home\",\"0c:d6:bd:0e:50:10\",8,-49,0,0,0,0";
    assert_eq!(GetConnectedAp.decode(body).unwrap(), Some("Home".to_string()));
}

#[test]
fn connected_ap_missing_second_line() {
    assert_eq!(GetConnectedAp.decode(b"AT+CWJAP?"), Err(Error::MissingLine));
}

#[test]
fn connected_ap_missing_colon() {
    assert_eq!(GetConnectedAp.decode(b"AT+CWJAP?\r\nodd reply"), Err(Error::MissingDelimiter(b':')));
}

#[test]
fn connected_ap_missing_comma() {
    assert_eq!(
        GetConnectedAp.decode(b"AT+CWJAP?\r\n+CWJAP:\"Home\""),
        Err(Error::MissingDelimiter(b','))
    );
}

#[test]
fn connected_ap_comma_before_colon() {
    assert_eq!(
        GetConnectedAp.decode(b"AT+CWJAP?\r\nx,y:z"),
        Err(Error::MissingDelimiter(b','))
    );
}

#[test]
fn ecn_known_and_unknown_codes() {
    assert_eq!(ecn_from_code(0), ECN::Open);
    assert_eq!(ecn_from_code(1), ECN::WEP);
    assert_eq!(ecn_from_code(2), ECN::WPA_PSK);
    assert_eq!(ecn_from_code(3), ECN::WPA2_PSK);
    assert_eq!(ecn_from_code(4), ECN::WPA_WPA2_PSK);
    assert_eq!(ecn_from_code(9), ECN::Unknown(9));
    assert_eq!(ecn_from_code(255), ECN::Unknown(255));
}
