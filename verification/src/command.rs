//! The request types of the protocol and their response parsers. The
//! commands that query or change the wireless configuration live in
//! [`wifi_mode`]; this module holds the simple echo-checked commands and the
//! firmware-version query.
use vstd::prelude::*;

pub mod wifi_mode;

use crate::parse::{bytes_eq, find_byte, find_first, lemma_find_first, trim, trim_bytes,
    utf8_to_string};
use crate::{crlf, Command, Error, ErrorModel, CR, LF};
use vstd::utf8::{decode_utf8, valid_utf8};

verus! {

/// Test whether the modem answers at all: the request is echoed back.
pub struct Test;

/// The self-test request line: the bare attention word and the terminator.
pub open spec fn test_wire() -> Seq<u8> {
    seq![65u8, 84u8, CR, LF]  // "AT\r\n"
}

impl Command for Test {
    type Output = bool;

    open spec fn wire(&self) -> Seq<u8> {
        test_wire()
    }

    open spec fn decoded(&self, body: Seq<u8>) -> Result<bool, ErrorModel> {
        Ok(body == test_wire())
    }

    proof fn wire_terminated(&self) {
        assert(self.wire().skip(2) =~= crlf());
    }

    fn encode(&self, out: &mut Vec<u8>) {
        out.push(65);
        out.push(84);
        out.push(CR);
        out.push(LF);
        proof {
            assert(out@ =~= old(out)@ + test_wire());
        }
    }

    fn decode(&self, body: &[u8]) -> (r: Result<bool, Error>) {
        let mut w: Vec<u8> = Vec::new();
        self.encode(&mut w);
        proof {
            assert(w@ =~= test_wire());
        }
        Ok(bytes_eq(body, w.as_slice()))
    }
}

/// Restart the module. The transport usually drops afterwards, so callers
/// should re-open their connection once this returns.
pub struct Restart;

/// The restart request line.
pub open spec fn restart_wire() -> Seq<u8> {
    seq![65u8, 84u8, 43u8, 82u8, 83u8, 84u8, CR, LF]  // "AT+RST\r\n"
}

impl Command for Restart {
    type Output = bool;

    open spec fn wire(&self) -> Seq<u8> {
        restart_wire()
    }

    open spec fn decoded(&self, body: Seq<u8>) -> Result<bool, ErrorModel> {
        Ok(body == restart_wire())
    }

    proof fn wire_terminated(&self) {
        assert(self.wire().skip(6) =~= crlf());
    }

    fn encode(&self, out: &mut Vec<u8>) {
        out.push(65);
        out.push(84);
        out.push(43);
        out.push(82);
        out.push(83);
        out.push(84);
        out.push(CR);
        out.push(LF);
        proof {
            assert(out@ =~= old(out)@ + restart_wire());
        }
    }

    fn decode(&self, body: &[u8]) -> (r: Result<bool, Error>) {
        let mut w: Vec<u8> = Vec::new();
        self.encode(&mut w);
        proof {
            assert(w@ =~= restart_wire());
        }
        Ok(bytes_eq(body, w.as_slice()))
    }
}

/// Disconnect from the currently associated access point.
pub struct DisconnectFromAp;

/// The disconnect request line.
pub open spec fn disconnect_wire() -> Seq<u8> {
    seq![65u8, 84u8, 43u8, 67u8, 87u8, 81u8, 65u8, 80u8, CR, LF]  // "AT+CWQAP\r\n"
}

impl Command for DisconnectFromAp {
    type Output = bool;

    open spec fn wire(&self) -> Seq<u8> {
        disconnect_wire()
    }

    open spec fn decoded(&self, body: Seq<u8>) -> Result<bool, ErrorModel> {
        Ok(body == disconnect_wire())
    }

    proof fn wire_terminated(&self) {
        assert(self.wire().skip(8) =~= crlf());
    }

    fn encode(&self, out: &mut Vec<u8>) {
        out.push(65);
        out.push(84);
        out.push(43);
        out.push(67);
        out.push(87);
        out.push(81);
        out.push(65);
        out.push(80);
        out.push(CR);
        out.push(LF);
        proof {
            assert(out@ =~= old(out)@ + disconnect_wire());
        }
    }

    fn decode(&self, body: &[u8]) -> (r: Result<bool, Error>) {
        let mut w: Vec<u8> = Vec::new();
        self.encode(&mut w);
        proof {
            assert(w@ =~= disconnect_wire());
        }
        Ok(bytes_eq(body, w.as_slice()))
    }
}

/// Ask the firmware for its version string.
pub struct GetVersion;

/// The version request line.
pub open spec fn version_wire() -> Seq<u8> {
    seq![65u8, 84u8, 43u8, 71u8, 77u8, 82u8, CR, LF]  // "AT+GMR\r\n"
}

/// What decoding a version response yields: everything after the first line
/// feed (the echoed request line), trimmed, as text.
pub open spec fn version_decoded(body: Seq<u8>) -> Result<Seq<char>, ErrorModel> {
    match find_first(body, LF) {
        None => Err(ErrorModel::MissingDelimiter(LF)),
        Some(k) => {
            let t = trim(body.skip(k + 1));
            if valid_utf8(t) {
                Ok(decode_utf8(t))
            } else {
                Err(ErrorModel::InvalidText(t))
            }
        },
    }
}

impl Command for GetVersion {
    type Output = String;

    open spec fn wire(&self) -> Seq<u8> {
        version_wire()
    }

    open spec fn decoded(&self, body: Seq<u8>) -> Result<Seq<char>, ErrorModel> {
        version_decoded(body)
    }

    proof fn wire_terminated(&self) {
        assert(self.wire().skip(6) =~= crlf());
    }

    fn encode(&self, out: &mut Vec<u8>) {
        out.push(65);
        out.push(84);
        out.push(43);
        out.push(71);
        out.push(77);
        out.push(82);
        out.push(CR);
        out.push(LF);
        proof {
            assert(out@ =~= old(out)@ + version_wire());
        }
    }

    fn decode(&self, body: &[u8]) -> (r: Result<String, Error>) {
        match find_byte(body, LF) {
            None => Err(Error::MissingDelimiter(LF)),
            Some(k) => {
                let n = body.len();
                proof {
                    lemma_find_first(body@, LF);
                    assert(k < n);
                }
                let rest = vstd::slice::slice_subrange(body, k + 1, n);
                proof {
                    assert(rest@ =~= body@.skip(k + 1));
                }
                let t = trim_bytes(rest);
                match utf8_to_string(t) {
                    Some(s) => Ok(s),
                    None => Err(Error::InvalidText(vstd::slice::slice_to_vec(t))),
                }
            },
        }
    }
}

/// The self-test round trip: the request is exactly the attention word with
/// the line terminator, and decoding answers `true` on a body equal to those
/// bytes and `false` on every other body.
pub proof fn lemma_self_test_round_trip(cmd: Test, body: Seq<u8>)
    ensures
        cmd.wire() == seq![65u8, 84u8, CR, LF],
        cmd.decoded(body) == Ok::<bool, ErrorModel>(body == seq![65u8, 84u8, CR, LF]),
{
}

} // verus!
