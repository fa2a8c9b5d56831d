//! Commands that query and change the wireless configuration: the operating
//! mode, scanning for access points, and joining or querying the current
//! association.
use vstd::prelude::*;

use crate::parse::{bytes_eq, delim_pos, extend_bytes, find_byte, find_first, lemma_find_first,
    parse_i16, parse_i16_spec, parse_u8, parse_u8_spec, split_field, split_lines, lines_of, trim,
    trim_bytes, unquote, unquote_bytes, utf8_to_string, QUOTE};
use crate::{crlf, Command, Error, ErrorModel, NumericField, CR, LF};
use vstd::string::StringSliceAdditionalSpecFns;
use vstd::utf8::{decode_utf8, valid_utf8};

verus! {

/// The module's operating mode, sent on the wire as one ASCII digit.
#[derive(Copy, Clone, Debug, Hash, Eq, PartialEq, Structural)]
pub enum WifiMode {
    /// Station: the module joins an access point.
    StationMode,
    /// Access point: the module offers a network of its own.
    ApMode,
    /// Both at once.
    ApStationMode,
}

impl DeepView for WifiMode {
    type V = WifiMode;

    open spec fn deep_view(&self) -> WifiMode {
        *self
    }
}

/// The ASCII digit that stands for `m` on the wire.
pub open spec fn mode_digit(m: WifiMode) -> u8 {
    match m {
        WifiMode::StationMode => 49,
        WifiMode::ApMode => 50,
        WifiMode::ApStationMode => 51,
    }
}

/// Get the current wifi mode of the module.
pub struct GetWifiMode;

/// The mode query request line.
pub open spec fn get_mode_wire() -> Seq<u8> {
    seq![65u8, 84u8, 43u8, 67u8, 87u8, 77u8, 79u8, 68u8, 69u8, 63u8, CR, LF]  // "AT+CWMODE?\r\n"
}

/// What decoding a mode response yields: the digit right after the first
/// colon names the mode; a missing colon, a body ending at the colon, or any
/// other digit is a structural error.
pub open spec fn mode_decoded(body: Seq<u8>) -> Result<WifiMode, ErrorModel> {
    match find_first(body, 58) {
        None => Err(ErrorModel::MissingDelimiter(58)),
        Some(k) => {
            if k + 1 >= body.len() {
                Err(ErrorModel::UnexpectedEnd)
            } else if body[k + 1] == 49 {
                Ok(WifiMode::StationMode)
            } else if body[k + 1] == 50 {
                Ok(WifiMode::ApMode)
            } else if body[k + 1] == 51 {
                Ok(WifiMode::ApStationMode)
            } else {
                Err(ErrorModel::UnknownMode(body[k + 1]))
            }
        },
    }
}

impl Command for GetWifiMode {
    type Output = WifiMode;

    open spec fn wire(&self) -> Seq<u8> {
        get_mode_wire()
    }

    open spec fn decoded(&self, body: Seq<u8>) -> Result<WifiMode, ErrorModel> {
        mode_decoded(body)
    }

    proof fn wire_terminated(&self) {
        assert(self.wire().skip(10) =~= crlf());
    }

    fn encode(&self, out: &mut Vec<u8>) {
        out.push(65);
        out.push(84);
        out.push(43);
        out.push(67);
        out.push(87);
        out.push(77);
        out.push(79);
        out.push(68);
        out.push(69);
        out.push(63);
        out.push(CR);
        out.push(LF);
        proof {
            assert(out@ =~= old(out)@ + get_mode_wire());
        }
    }

    fn decode(&self, body: &[u8]) -> (r: Result<WifiMode, Error>) {
        match find_byte(body, 58) {
            None => Err(Error::MissingDelimiter(58)),
            Some(k) => {
                let n = body.len();
                proof {
                    lemma_find_first(body@, 58);
                    assert(k < n);
                }
                if k + 1 >= n {
                    Err(Error::UnexpectedEnd)
                } else {
                    let b = body[k + 1];
                    if b == 49 {
                        Ok(WifiMode::StationMode)
                    } else if b == 50 {
                        Ok(WifiMode::ApMode)
                    } else if b == 51 {
                        Ok(WifiMode::ApStationMode)
                    } else {
                        Err(Error::UnknownMode(b))
                    }
                }
            },
        }
    }
}

/// Set the current wifi mode of the module.
pub struct SetWifiMode(pub WifiMode);

/// The mode-setting request line for mode `m`.
pub open spec fn set_mode_wire(m: WifiMode) -> Seq<u8> {
    seq![65u8, 84u8, 43u8, 67u8, 87u8, 77u8, 79u8, 68u8, 69u8, 61u8, mode_digit(m), CR, LF]
}

impl Command for SetWifiMode {
    type Output = ();

    open spec fn wire(&self) -> Seq<u8> {
        set_mode_wire(self.0)
    }

    open spec fn decoded(&self, body: Seq<u8>) -> Result<(), ErrorModel> {
        Ok(())
    }

    proof fn wire_terminated(&self) {
        assert(self.wire().skip(11) =~= crlf());
    }

    fn encode(&self, out: &mut Vec<u8>) {
        out.push(65);
        out.push(84);
        out.push(43);
        out.push(67);
        out.push(87);
        out.push(77);
        out.push(79);
        out.push(68);
        out.push(69);
        out.push(61);
        let d: u8 = match self.0 {
            WifiMode::StationMode => 49,
            WifiMode::ApMode => 50,
            WifiMode::ApStationMode => 51,
        };
        out.push(d);
        out.push(CR);
        out.push(LF);
        proof {
            assert(out@ =~= old(out)@ + set_mode_wire(self.0));
        }
    }

    fn decode(&self, body: &[u8]) -> (r: Result<(), Error>) {
        Ok(())
    }
}

/// Each of the three valid mode digits decodes to its mode, and any other
/// digit after the first colon is refused with an error naming it.
pub proof fn lemma_mode_digits(cmd: GetWifiMode, body: Seq<u8>, k: int)
    requires
        find_first(body, 58) == Some(k),
        k + 1 < body.len(),
    ensures
        body[k + 1] == 49 ==> cmd.decoded(body) == Ok::<WifiMode, ErrorModel>(
            WifiMode::StationMode,
        ),
        body[k + 1] == 50 ==> cmd.decoded(body) == Ok::<WifiMode, ErrorModel>(WifiMode::ApMode),
        body[k + 1] == 51 ==> cmd.decoded(body) == Ok::<WifiMode, ErrorModel>(
            WifiMode::ApStationMode,
        ),
        body[k + 1] != 49 && body[k + 1] != 50 && body[k + 1] != 51 ==> cmd.decoded(body)
            == Err::<WifiMode, ErrorModel>(ErrorModel::UnknownMode(body[k + 1])),
{
}

/// A body without a colon decodes to a structural error, never a mode value.
pub proof fn lemma_mode_missing_colon(cmd: GetWifiMode, body: Seq<u8>)
    requires
        forall|i: int| 0 <= i < body.len() ==> body[i] != 58,
    ensures
        cmd.decoded(body) == Err::<WifiMode, ErrorModel>(ErrorModel::MissingDelimiter(58)),
{
    lemma_find_first(body, 58);
}

/// Setting the mode asks nothing of the acknowledged body: decoding succeeds
/// with unit whatever the body holds.
pub proof fn lemma_set_mode_ack(cmd: SetWifiMode, body: Seq<u8>)
    ensures
        cmd.decoded(body) == Ok::<(), ErrorModel>(()),
{
}

/// Splits `s` at the first occurrence of `find` outside quotes: the field
/// before it (quotes stripped) and the remainder after it. A delimiter byte
/// inside a quoted stretch is not a field boundary.
pub fn try_get_string_until<'a>(s: &'a [u8], find: u8) -> (r: Result<(&'a [u8], &'a [u8]), Error>)
    ensures
        match r {
            Ok(pair) => split_field(s@, find) == Some((pair.0@, pair.1@)),
            Err(e) => split_field(s@, find) is None && e.deep_view()
                == ErrorModel::MissingDelimiter(find),
        },
{
    let mut i: usize = 0;
    let mut inside: bool = false;
    proof {
        assert(s@.skip(0int) =~= s@);
    }
    while i < s.len()
        invariant
            i <= s@.len(),
            match delim_pos(s@.skip(i as int), find, inside) {
                None => delim_pos(s@, find, false) is None,
                Some(k) => delim_pos(s@, find, false) == Some(i + k),
            },
        decreases s@.len() - i,
    {
        let ghost rest = s@.skip(i as int);
        let b = s[i];
        proof {
            assert(rest[0] == s@[i as int]);
            assert(rest.skip(1) =~= s@.skip(i + 1));
        }
        let inside2 = if b == QUOTE {
            !inside
        } else {
            inside
        };
        if b == find && !inside2 {
            proof {
                assert(delim_pos(rest, find, inside) == Some(0int));
            }
            let lhs = unquote_bytes(vstd::slice::slice_subrange(s, 0, i));
            let rhs = vstd::slice::slice_subrange(s, i + 1, s.len());
            proof {
                assert(s@.subrange(0, i as int) =~= s@.take(i as int));
                assert(rhs@ =~= s@.skip(i + 1));
            }
            return Ok((lhs, rhs));
        }
        inside = inside2;
        i = i + 1;
    }
    proof {
        assert(s@.skip(i as int).len() == 0);
    }
    Err(Error::MissingDelimiter(find))
}

/// The encryption scheme an access point reports, with unknown codes kept as
/// their raw value instead of failing, so that newer firmware revisions keep
/// decoding.
#[derive(Debug, Eq, PartialEq, Hash, Copy, Clone, Structural)]
#[allow(non_camel_case_types)]
pub enum ECN {
    Open,
    WEP,
    WPA_PSK,
    WPA2_PSK,
    WPA_WPA2_PSK,
    Unknown(u8),
}

impl DeepView for ECN {
    type V = ECN;

    open spec fn deep_view(&self) -> ECN {
        *self
    }
}

/// The scheme a numeric encryption code stands for; codes past the five
/// known ones carry their raw value.
pub open spec fn ecn_of(code: u8) -> ECN {
    if code == 0 {
        ECN::Open
    } else if code == 1 {
        ECN::WEP
    } else if code == 2 {
        ECN::WPA_PSK
    } else if code == 3 {
        ECN::WPA2_PSK
    } else if code == 4 {
        ECN::WPA_WPA2_PSK
    } else {
        ECN::Unknown(code)
    }
}

/// Maps a numeric encryption code to its scheme.
pub fn ecn_from_code(code: u8) -> (r: ECN)
    ensures
        r == ecn_of(code),
{
    match code {
        0 => ECN::Open,
        1 => ECN::WEP,
        2 => ECN::WPA_PSK,
        3 => ECN::WPA2_PSK,
        4 => ECN::WPA_WPA2_PSK,
        x => ECN::Unknown(x),
    }
}

/// One access point seen in a scan.
#[derive(Debug, PartialEq, Clone)]
pub struct AccessPoint {
    /// The encryption scheme the network announces.
    pub ecn: ECN,
    /// The network name; may be empty.
    pub ssid: String,
    /// Signal strength in dBm.
    pub rssi: i16,
    /// The hardware address in colon-hex form.
    pub mac: String,
    /// The channel number.
    pub channel: u8,
}

/// The mathematical image of an [`AccessPoint`]: text becomes character
/// sequences.
pub struct ApModel {
    pub ecn: ECN,
    pub ssid: Seq<char>,
    pub rssi: i16,
    pub mac: Seq<char>,
    pub channel: u8,
}

impl DeepView for AccessPoint {
    type V = ApModel;

    open spec fn deep_view(&self) -> ApModel {
        ApModel {
            ecn: self.ecn,
            ssid: self.ssid@,
            rssi: self.rssi,
            mac: self.mac@,
            channel: self.channel,
        }
    }
}

/// The prefix that marks a scan-record line: `+CWLAP:(`.
pub open spec fn record_prefix() -> Seq<u8> {
    seq![43u8, 67u8, 87u8, 76u8, 65u8, 80u8, 58u8, 40u8]
}

/// True when a response line carries one scan record.
pub open spec fn is_record_line(line: Seq<u8>) -> bool {
    line.len() >= 8 && line.take(8) == record_prefix()
}

/// What parsing one scan-record line yields: the five comma-separated fields
/// after the opening parenthesis — encryption code, name, signal strength,
/// hardware address, and channel, the last closed by a parenthesis — with
/// quotes stripped, numeric fields read as integers and text fields
/// validated.
pub open spec fn record_decoded(line: Seq<u8>) -> Result<ApModel, ErrorModel> {
    let rest = line.skip(8);
    match split_field(rest, 44) {
        None => Err(ErrorModel::MissingDelimiter(44)),
        Some((ecn_raw, r1)) => match split_field(r1, 44) {
            None => Err(ErrorModel::MissingDelimiter(44)),
            Some((ssid_raw, r2)) => match split_field(r2, 44) {
                None => Err(ErrorModel::MissingDelimiter(44)),
                Some((rssi_raw, r3)) => match split_field(r3, 44) {
                    None => Err(ErrorModel::MissingDelimiter(44)),
                    Some((mac_raw, r4)) => match split_field(r4, 41) {
                        None => Err(ErrorModel::MissingDelimiter(41)),
                        Some((ch_raw, _)) => match parse_u8_spec(ecn_raw) {
                            None => Err(ErrorModel::InvalidNumber(NumericField::Ecn, ecn_raw)),
                            Some(code) => match parse_i16_spec(rssi_raw) {
                                None => Err(
                                    ErrorModel::InvalidNumber(NumericField::Rssi, rssi_raw),
                                ),
                                Some(rssi) => match parse_u8_spec(ch_raw) {
                                    None => Err(
                                        ErrorModel::InvalidNumber(NumericField::Channel, ch_raw),
                                    ),
                                    Some(channel) => {
                                        if !valid_utf8(ssid_raw) {
                                            Err(ErrorModel::InvalidText(ssid_raw))
                                        } else if !valid_utf8(mac_raw) {
                                            Err(ErrorModel::InvalidText(mac_raw))
                                        } else {
                                            Ok(
                                                ApModel {
                                                    ecn: ecn_of(code),
                                                    ssid: decode_utf8(ssid_raw),
                                                    rssi: rssi,
                                                    mac: decode_utf8(mac_raw),
                                                    channel: channel,
                                                },
                                            )
                                        }
                                    },
                                },
                            },
                        },
                    },
                },
            },
        },
    }
}

/// Parses one scan-record line.
fn parse_record_line(line: &[u8]) -> (r: Result<AccessPoint, Error>)
    requires
        is_record_line(line@),
    ensures
        match r {
            Ok(ap) => record_decoded(line@) == Ok::<ApModel, ErrorModel>(ap.deep_view()),
            Err(e) => record_decoded(line@) == Err::<ApModel, ErrorModel>(e.deep_view()),
        },
{
    let rest = vstd::slice::slice_subrange(line, 8, line.len());
    proof {
        assert(rest@ =~= line@.skip(8));
    }
    let (ecn_raw, r1) = match try_get_string_until(rest, 44) {
        Ok(p) => p,
        Err(e) => {
            return Err(e);
        },
    };
    let (ssid_raw, r2) = match try_get_string_until(r1, 44) {
        Ok(p) => p,
        Err(e) => {
            return Err(e);
        },
    };
    let (rssi_raw, r3) = match try_get_string_until(r2, 44) {
        Ok(p) => p,
        Err(e) => {
            return Err(e);
        },
    };
    let (mac_raw, r4) = match try_get_string_until(r3, 44) {
        Ok(p) => p,
        Err(e) => {
            return Err(e);
        },
    };
    let (ch_raw, _r5) = match try_get_string_until(r4, 41) {
        Ok(p) => p,
        Err(e) => {
            return Err(e);
        },
    };
    let code = match parse_u8(ecn_raw) {
        Some(v) => v,
        None => {
            return Err(
                Error::InvalidNumber(NumericField::Ecn, vstd::slice::slice_to_vec(ecn_raw)),
            );
        },
    };
    let rssi = match parse_i16(rssi_raw) {
        Some(v) => v,
        None => {
            return Err(
                Error::InvalidNumber(NumericField::Rssi, vstd::slice::slice_to_vec(rssi_raw)),
            );
        },
    };
    let channel = match parse_u8(ch_raw) {
        Some(v) => v,
        None => {
            return Err(
                Error::InvalidNumber(NumericField::Channel, vstd::slice::slice_to_vec(ch_raw)),
            );
        },
    };
    let ssid = match utf8_to_string(ssid_raw) {
        Some(s) => s,
        None => {
            return Err(Error::InvalidText(vstd::slice::slice_to_vec(ssid_raw)));
        },
    };
    let mac = match utf8_to_string(mac_raw) {
        Some(s) => s,
        None => {
            return Err(Error::InvalidText(vstd::slice::slice_to_vec(mac_raw)));
        },
    };
    Ok(
        AccessPoint {
            ecn: ecn_from_code(code),
            ssid: ssid,
            rssi: rssi,
            mac: mac,
            channel: channel,
        },
    )
}

/// What decoding a whole scan body yields: the records of the lines that
/// carry the record prefix, in order; other lines are skipped silently, and
/// the first malformed record line aborts with its error.
pub open spec fn records_decoded(ls: Seq<Seq<u8>>) -> Result<Seq<ApModel>, ErrorModel>
    decreases ls.len(),
{
    if ls.len() == 0 {
        Ok(Seq::empty())
    } else if !is_record_line(ls[0]) {
        records_decoded(ls.skip(1))
    } else {
        match record_decoded(ls[0]) {
            Err(e) => Err(e),
            Ok(ap) => match records_decoded(ls.skip(1)) {
                Err(e) => Err(e),
                Ok(s) => Ok(seq![ap] + s),
            },
        }
    }
}

/// List all available access points in range.
///
/// The chip answers this only in [`WifiMode::StationMode`]; check with
/// [`GetWifiMode`] and change with [`SetWifiMode`].
pub struct ListAp;

/// The scan request line.
pub open spec fn list_ap_wire() -> Seq<u8> {
    seq![65u8, 84u8, 43u8, 67u8, 87u8, 76u8, 65u8, 80u8, CR, LF]  // "AT+CWLAP\r\n"
}

/// True when `line` starts with the scan-record prefix.
fn is_record_line_exec(line: &[u8]) -> (r: bool)
    ensures
        r == is_record_line(line@),
{
    if line.len() < 8 {
        return false;
    }
    let r = line[0] == 43 && line[1] == 67 && line[2] == 87 && line[3] == 76 && line[4] == 65
        && line[5] == 80 && line[6] == 58 && line[7] == 40;
    proof {
        let t = line@.take(8);
        assert(forall|i: int| 0 <= i < 8 ==> t[i] == line@[i]);
        if r {
            assert(t =~= record_prefix());
        } else {
            if is_record_line(line@) {
                assert(t[0] == 43 && t[1] == 67 && t[2] == 87 && t[3] == 76 && t[4] == 65 && t[5]
                    == 80 && t[6] == 58 && t[7] == 40);
            }
        }
    }
    r
}

/// Appends one decoded record, keeping its mathematical image in step.
fn push_record(out: &mut Vec<AccessPoint>, ap: AccessPoint)
    ensures
        final(out)@ == old(out)@.push(ap),
        final(out).deep_view() == old(out).deep_view().push(ap.deep_view()),
{
    let ghost before = out.deep_view();
    let ghost apv = ap.deep_view();
    out.push(ap);
    proof {
        assert(out.deep_view() =~= before.push(apv));
    }
}

impl Command for ListAp {
    type Output = Vec<AccessPoint>;

    open spec fn wire(&self) -> Seq<u8> {
        list_ap_wire()
    }

    open spec fn decoded(&self, body: Seq<u8>) -> Result<Seq<ApModel>, ErrorModel> {
        records_decoded(split_lines(body))
    }

    proof fn wire_terminated(&self) {
        assert(self.wire().skip(8) =~= crlf());
    }

    fn encode(&self, out: &mut Vec<u8>) {
        out.push(65);
        out.push(84);
        out.push(43);
        out.push(67);
        out.push(87);
        out.push(76);
        out.push(65);
        out.push(80);
        out.push(CR);
        out.push(LF);
        proof {
            assert(out@ =~= old(out)@ + list_ap_wire());
        }
    }

    fn decode(&self, body: &[u8]) -> (r: Result<Vec<AccessPoint>, Error>) {
        let lines = lines_of(body);
        let ghost all = lines.deep_view();
        let mut out: Vec<AccessPoint> = Vec::new();
        let mut i: usize = 0;
        proof {
            assert(all.skip(0int) =~= all);
            if let Ok(s) = records_decoded(all) {
                assert(out.deep_view() + s =~= s);
            }
        }
        while i < lines.len()
            invariant
                i <= lines@.len(),
                all == lines.deep_view(),
                all == split_lines(body@),
                lines@.len() == all.len(),
                match records_decoded(all.skip(i as int)) {
                    Ok(s) => records_decoded(all) == Ok::<Seq<ApModel>, ErrorModel>(
                        out.deep_view() + s,
                    ),
                    Err(e) => records_decoded(all) == Err::<Seq<ApModel>, ErrorModel>(e),
                },
            decreases lines@.len() - i,
        {
            let ghost lrest = all.skip(i as int);
            let line = lines[i].as_slice();
            proof {
                assert(lrest[0] == all[i as int]);
                assert(all[i as int] == lines@[i as int].deep_view());
                assert(line@ =~= lines@[i as int].deep_view());
                assert(lrest.skip(1) =~= all.skip(i + 1));
            }
            if is_record_line_exec(line) {
                match parse_record_line(line) {
                    Ok(ap) => {
                        let ghost apv = ap.deep_view();
                        let ghost before = out.deep_view();
                        push_record(&mut out, ap);
                        proof {
                            if let Ok(s) = records_decoded(all.skip(i + 1)) {
                                assert(records_decoded(lrest) == Ok::<Seq<ApModel>, ErrorModel>(
                                    seq![apv] + s,
                                ));
                                assert(before.push(apv) + s =~= before + (seq![apv] + s));
                            }
                        }
                    },
                    Err(e) => {
                        return Err(e);
                    },
                }
            }
            i = i + 1;
        }
        proof {
            assert(all.skip(i as int) =~= Seq::<Seq<u8>>::empty());
            assert(records_decoded(Seq::empty()) == Ok::<Seq<ApModel>, ErrorModel>(Seq::empty()));
            assert(out.deep_view() + Seq::<ApModel>::empty() =~= out.deep_view());
        }
        Ok(out)
    }
}

/// Join an access point by name and password.
pub struct ConnectToAp<'a> {
    /// The network name to join.
    pub ssid: &'a str,
    /// The network's password.
    pub password: &'a str,
}

/// The opening of the join request line: `AT+CWJAP="`.
pub open spec fn connect_opening() -> Seq<u8> {
    seq![65u8, 84u8, 43u8, 67u8, 87u8, 74u8, 65u8, 80u8, 61u8, 34u8]
}

/// The bytes between the quoted name and the quoted password: `","`.
pub open spec fn connect_separator() -> Seq<u8> {
    seq![34u8, 44u8, 34u8]
}

/// The closing of the join request line: the quote and the terminator.
pub open spec fn connect_closing() -> Seq<u8> {
    seq![34u8, CR, LF]
}

impl<'a> Command for ConnectToAp<'a> {
    type Output = ();

    open spec fn wire(&self) -> Seq<u8> {
        connect_opening() + self.ssid.spec_bytes() + connect_separator()
            + self.password.spec_bytes() + connect_closing()
    }

    open spec fn decoded(&self, body: Seq<u8>) -> Result<(), ErrorModel> {
        Ok(())
    }

    proof fn wire_terminated(&self) {
        let w = self.wire();
        assert(w[w.len() - 2] == CR);
        assert(w[w.len() - 1] == LF);
        assert(w.skip(w.len() - 2) =~= crlf());
    }

    fn encode(&self, out: &mut Vec<u8>) {
        out.push(65);
        out.push(84);
        out.push(43);
        out.push(67);
        out.push(87);
        out.push(74);
        out.push(65);
        out.push(80);
        out.push(61);
        out.push(34);
        proof {
            assert(out@ =~= old(out)@ + connect_opening());
        }
        extend_bytes(out, self.ssid.as_bytes());
        out.push(34);
        out.push(44);
        out.push(34);
        proof {
            assert(out@ =~= old(out)@ + connect_opening() + self.ssid.spec_bytes()
                + connect_separator());
        }
        extend_bytes(out, self.password.as_bytes());
        out.push(34);
        out.push(CR);
        out.push(LF);
        proof {
            assert(out@ =~= old(out)@ + self.wire());
        }
    }

    fn decode(&self, body: &[u8]) -> (r: Result<(), Error>) {
        Ok(())
    }
}

/// Query the currently associated access point.
pub struct GetConnectedAp;

/// The association query request line.
pub open spec fn connected_wire() -> Seq<u8> {
    seq![65u8, 84u8, 43u8, 67u8, 87u8, 74u8, 65u8, 80u8, 63u8, CR, LF]  // "AT+CWJAP?\r\n"
}

/// The sentinel line that reports no association: `No AP`.
pub open spec fn no_ap_sentinel() -> Seq<u8> {
    seq![78u8, 111u8, 32u8, 65u8, 80u8]
}

/// What decoding an association response yields: the second line, trimmed,
/// is either the no-association sentinel or holds the network name between
/// the first colon and the first comma after it, quotes stripped.
pub open spec fn connected_decoded(body: Seq<u8>) -> Result<Option<Seq<char>>, ErrorModel> {
    let ls = split_lines(body);
    if ls.len() < 2 {
        Err(ErrorModel::MissingLine)
    } else {
        let line = trim(ls[1]);
        if line == no_ap_sentinel() {
            Ok(None)
        } else {
            match find_first(line, 58) {
                None => Err(ErrorModel::MissingDelimiter(58)),
                Some(c) => match find_first(line, 44) {
                    None => Err(ErrorModel::MissingDelimiter(44)),
                    Some(m) => {
                        if m < c + 1 {
                            Err(ErrorModel::MissingDelimiter(44))
                        } else {
                            let name = unquote(line.subrange(c + 1, m));
                            if valid_utf8(name) {
                                Ok(Some(decode_utf8(name)))
                            } else {
                                Err(ErrorModel::InvalidText(name))
                            }
                        }
                    },
                },
            }
        }
    }
}

impl Command for GetConnectedAp {
    type Output = Option<String>;

    open spec fn wire(&self) -> Seq<u8> {
        connected_wire()
    }

    open spec fn decoded(&self, body: Seq<u8>) -> Result<Option<Seq<char>>, ErrorModel> {
        connected_decoded(body)
    }

    proof fn wire_terminated(&self) {
        assert(self.wire().skip(9) =~= crlf());
    }

    fn encode(&self, out: &mut Vec<u8>) {
        out.push(65);
        out.push(84);
        out.push(43);
        out.push(67);
        out.push(87);
        out.push(74);
        out.push(65);
        out.push(80);
        out.push(63);
        out.push(CR);
        out.push(LF);
        proof {
            assert(out@ =~= old(out)@ + connected_wire());
        }
    }

    fn decode(&self, body: &[u8]) -> (r: Result<Option<String>, Error>) {
        let lines = lines_of(body);
        proof {
            assert(lines.deep_view().len() == lines@.len());
        }
        if lines.len() < 2 {
            return Err(Error::MissingLine);
        }
        let line = trim_bytes(lines[1].as_slice());
        proof {
            assert(lines.deep_view()[1] == lines@[1].deep_view());
            assert(lines@[1].deep_view() =~= lines@[1]@);
            assert(line@ == trim(split_lines(body@)[1]));
        }
        let mut sentinel: Vec<u8> = Vec::new();
        sentinel.push(78);
        sentinel.push(111);
        sentinel.push(32);
        sentinel.push(65);
        sentinel.push(80);
        proof {
            assert(sentinel@ =~= no_ap_sentinel());
        }
        if bytes_eq(line, sentinel.as_slice()) {
            return Ok(None);
        }
        match find_byte(line, 58) {
            None => Err(Error::MissingDelimiter(58)),
            Some(c) => {
                match find_byte(line, 44) {
                    None => Err(Error::MissingDelimiter(44)),
                    Some(m) => {
                        proof {
                            lemma_find_first(line@, 58);
                            lemma_find_first(line@, 44);
                            assert(c < line@.len());
                            assert(m < line@.len());
                        }
                        if m <= c {
                            Err(Error::MissingDelimiter(44))
                        } else {
                            let name = unquote_bytes(vstd::slice::slice_subrange(line, c + 1, m));
                            match utf8_to_string(name) {
                                Some(s) => Ok(Some(s)),
                                None => Err(Error::InvalidText(vstd::slice::slice_to_vec(name))),
                            }
                        }
                    },
                }
            },
        }
    }
}

proof fn lemma_delim_pos_quoted_scan(name: Seq<u8>, tail: Seq<u8>, find: u8)
    requires
        forall|i: int| 0 <= i < name.len() ==> name[i] != QUOTE,
    ensures
        delim_pos(name + tail, find, true) == match delim_pos(tail, find, true) {
            None => None::<int>,
            Some(k) => Some(k + name.len()),
        },
    decreases name.len(),
{
    if name.len() == 0 {
        assert(name + tail =~= tail);
    } else {
        let s = name + tail;
        assert(s[0] == name[0]);
        assert(s.skip(1) =~= name.skip(1) + tail);
        assert(forall|i: int| 0 <= i < name.skip(1).len() ==> name.skip(1)[i] == name[i + 1]);
        lemma_delim_pos_quoted_scan(name.skip(1), tail, find);
    }
}

/// A quoted name keeps embedded delimiter bytes: the field scanner hands the
/// quoted stretch back whole, quotes stripped, and the remainder after the
/// delimiter that follows the closing quote.
pub proof fn lemma_quoted_field_whole(name: Seq<u8>, rest: Seq<u8>, find: u8)
    requires
        forall|i: int| 0 <= i < name.len() ==> name[i] != QUOTE,
        find != QUOTE,
    ensures
        split_field(seq![QUOTE] + name + seq![QUOTE, find] + rest, find) == Some((name, rest)),
{
    let n = name.len() as int;
    let s = seq![QUOTE] + name + seq![QUOTE, find] + rest;
    let t1 = name + (seq![QUOTE, find] + rest);
    let t2 = seq![QUOTE, find] + rest;
    let t3 = seq![find] + rest;
    assert(s[0] == QUOTE);
    assert(s.skip(1) =~= t1);
    assert(t2[0] == QUOTE);
    assert(t2.skip(1) =~= t3);
    assert(t3[0] == find);
    assert(delim_pos(t3, find, false) == Some(0int));
    assert(delim_pos(t2, find, true) == Some(1int));
    lemma_delim_pos_quoted_scan(name, t2, find);
    assert(delim_pos(t1, find, true) == Some(1 + n));
    assert(delim_pos(s, find, false) == Some(n + 2));
    assert(s.take(n + 2) =~= seq![QUOTE] + name + seq![QUOTE]);
    let q = s.take(n + 2);
    assert(q[0] == QUOTE);
    assert(q[q.len() - 1] == QUOTE);
    assert(unquote(q) =~= name);
    assert(s.skip(n + 3) =~= rest);
}

} // verus!
