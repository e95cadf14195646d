//! The Bolt wire protocol: simplified PackStream framing and the per-message
//! decision of the connection loop.
//!
//! A client message is one signature byte followed by PackStream data. Only
//! tiny strings (marker `0x80 + len`, `len < 16`) and 8-bit-length strings
//! (marker `0xD0`, then the length byte) are decoded; maps are read as a
//! marker byte followed by key/value string pairs.

use vstd::prelude::*;
use vstd::string::StringSliceAdditionalSpecFns;
use vstd::utf8::{valid_utf8, decode_utf8, encode_utf8, is_ascii_chars, is_ascii_chars_encode_utf8, encode_utf8_valid_utf8, encode_utf8_decode_utf8};
use crate::graph::Graph;

verus! {

/// The protocol version answered to the handshake.
pub const BOLT_VERSION: [u8; 4] = [5, 0, 0, 0];

/// Server configuration.
pub struct BoltConfig {
    pub host: String,
    pub port: u16,
}

impl Default for BoltConfig {
    /// `127.0.0.1:7687`.
    fn default() -> (c: Self)
        ensures
            c.host@ == "127.0.0.1"@,
            c.port == 7687,
    {
        BoltConfig { host: String::from_str("127.0.0.1"), port: 7687 }
    }
}

/// A Bolt server over a graph.
pub struct BoltServer {
    pub config: BoltConfig,
    pub store: Graph,
}

impl BoltServer {
    /// A server with `config` over `store`.
    pub fn new(config: BoltConfig, store: Graph) -> (s: Self)
        ensures
            s.config == config,
            s.store == store,
    {
        BoltServer { config, store }
    }
}

/// The characters `String::from_utf8_lossy` decodes from `bytes`.
pub uninterp spec fn lossy_utf8(bytes: Seq<u8>) -> Seq<char>;

/// Whether every byte is ASCII.
pub open spec fn all_ascii(bytes: Seq<u8>) -> bool {
    forall|i: int| 0 <= i < bytes.len() ==> bytes[i] < 128
}

/// Decodes `bytes` with `String::from_utf8_lossy` (invalid sequences become
/// U+FFFD). Its documentation gives that valid UTF-8 decodes to the
/// characters it encodes; that case is stated, the decoding of invalid
/// input is named.
#[verifier::external_body]
fn utf8_lossy(bytes: &[u8]) -> (s: String)
    ensures
        s@ == lossy_utf8(bytes@),
        valid_utf8(bytes@) ==> s@ == decode_utf8(bytes@),
{
    String::from_utf8_lossy(bytes).to_string()
}

/// The text of a string payload: the characters that valid UTF-8 encodes,
/// else the lossy decoding.
pub open spec fn payload_text(bytes: Seq<u8>) -> Seq<char> {
    if valid_utf8(bytes) {
        decode_utf8(bytes)
    } else {
        lossy_utf8(bytes)
    }
}

/// ASCII bytes are valid UTF-8 and read as the characters of the same codes.
pub proof fn lemma_ascii_payload(bytes: Seq<u8>)
    requires
        all_ascii(bytes),
    ensures
        payload_text(bytes) == bytes.map_values(|b: u8| b as char),
{
    let chars = bytes.map_values(|b: u8| b as char);
    assert(is_ascii_chars(chars));
    is_ascii_chars_encode_utf8(chars);
    assert(encode_utf8(chars) =~= bytes);
    encode_utf8_valid_utf8(chars);
    encode_utf8_decode_utf8(chars);
}

/// The outcome of reading one PackStream string at position `i` of `d`:
/// the decoded string, if one was read, and the position reached.
pub open spec fn parse_string_spec(d: Seq<u8>, i: nat) -> (Option<Seq<char>>, nat) {
    if i >= d.len() {
        (None, i)
    } else {
        let m = d[i as int];
        let j = i + 1;
        if 0x80 <= m <= 0x9F {
            let len = (m - 0x80) as nat;
            if j + len > d.len() { (None, j) } else { (Some(payload_text(d.subrange(j as int, (j + len) as int))), j + len) }
        } else if m == 0xD0 {
            if j >= d.len() {
                (None, j)
            } else {
                let len = d[j as int] as nat;
                let k = j + 1;
                if k + len > d.len() { (None, k) } else { (Some(payload_text(d.subrange(k as int, (k + len) as int))), k + len) }
            }
        } else {
            (None, j)
        }
    }
}

/// The payload bytes of the string framed at position `i` of `d`: from
/// after the marker (and length byte) up to where the read ends.
pub open spec fn string_payload(d: Seq<u8>, i: nat) -> Seq<u8> {
    let start: int = if 0x80 <= d[i as int] <= 0x9F { i + 1int } else { i + 2int };
    d.subrange(start, parse_string_spec(d, i).1 as int)
}

/// A string of fewer than 256 UTF-8 bytes framed by `write_string` reads
/// back as itself, the read ending right after the frame, whatever precedes it.
pub proof fn lemma_string_round_trip(prefix: Seq<u8>, s: Seq<char>)
    requires
        encode_utf8(s).len() < 256,
    ensures
        parse_string_spec(prefix + string_frame(encode_utf8(s)), prefix.len())
            == (Some(s), prefix.len() + string_frame(encode_utf8(s)).len()),
{
    let b = encode_utf8(s);
    let f = string_frame(b);
    let d = prefix + f;
    let i: int = prefix.len() as int;
    encode_utf8_valid_utf8(s);
    encode_utf8_decode_utf8(s);
    if b.len() < 16 {
        assert(d[i] == (0x80 + b.len()) as u8);
        assert(d.subrange(i + 1, i + 1 + b.len()) =~= b);
    } else {
        assert(d[i] == 0xD0u8);
        assert(d[i + 1] == (b.len() % 256) as u8);
        assert(d.subrange(i + 2, i + 2 + b.len()) =~= b);
    }
}

/// Key/value string pairs read from position `i` of `d` until the data ends
/// or a key cannot be read; a missing value reads as the empty string.
pub open spec fn parse_pairs_spec(d: Seq<u8>, i: nat) -> Seq<(Seq<char>, Seq<char>)>
    decreases d.len() - i,
{
    if i >= d.len() {
        Seq::empty()
    } else {
        let (k, i1) = parse_string_spec(d, i);
        let (v, i2) = parse_string_spec(d, i1);
        match k {
            None => Seq::empty(),
            Some(key) => {
                let val = match v { Some(x) => x, None => Seq::empty() };
                if i2 > i {
                    seq![(key, val)] + parse_pairs_spec(d, i2)
                } else {
                    seq![(key, val)]
                }
            },
        }
    }
}

/// A PackStream map: a marker byte, then key/value pairs.
pub open spec fn parse_map_spec(d: Seq<u8>) -> Seq<(Seq<char>, Seq<char>)> {
    if d.len() == 0 { Seq::empty() } else { parse_pairs_spec(d, 1) }
}

/// The string written for the UTF-8 bytes `b`: a tiny-string marker for
/// fewer than 16 bytes, else `0xD0` and the length modulo 256; then the bytes.
pub open spec fn string_frame(b: Seq<u8>) -> Seq<u8> {
    if b.len() < 16 {
        seq![(0x80 + b.len()) as u8] + b
    } else {
        seq![0xD0u8, (b.len() % 256) as u8] + b
    }
}

/// The frames of the key/value pairs of `m`, in order.
pub open spec fn pairs_frame(m: Seq<(&str, &str)>) -> Seq<u8>
    decreases m.len(),
{
    if m.len() == 0 {
        Seq::empty()
    } else {
        pairs_frame(m.drop_last()) + string_frame(m.last().0.spec_bytes()) + string_frame(m.last().1.spec_bytes())
    }
}

/// A SUCCESS message carrying the metadata map `m`.
pub open spec fn success_frame(m: Seq<(&str, &str)>) -> Seq<u8> {
    seq![0x70u8, 0x71u8, (0xA0 + m.len()) as u8] + pairs_frame(m)
}

/// A FAILURE message carrying `{"message": msg}`.
pub open spec fn failure_frame(msg: Seq<u8>) -> Seq<u8> {
    seq![0x70u8, 0x7Fu8, 0xA1u8] + string_frame("message".spec_bytes()) + string_frame(msg)
}

/// PackStream decoder.
pub struct PackStreamReader;

/// PackStream encoder.
pub struct PackStreamWriter;

fn copy_range(d: &[u8], from: usize, to: usize) -> (r: Vec<u8>)
    requires
        from <= to <= d@.len(),
    ensures
        r@ == d@.subrange(from as int, to as int),
{
    let mut r: Vec<u8> = Vec::new();
    let mut k: usize = from;
    while k < to
        invariant
            from <= k <= to,
            to <= d@.len(),
            r@ == d@.subrange(from as int, k as int),
        decreases to - k,
    {
        r.push(d[k]);
        k = k + 1;
        assert(r@ =~= d@.subrange(from as int, k as int));
    }
    r
}

impl PackStreamReader {
    pub fn new() -> (r: Self) {
        PackStreamReader
    }

    /// Reads a string at `*i`, advancing `*i` (see [`parse_string_spec`]).
    pub fn parse_string(&self, data: &[u8], i: &mut usize) -> (r: Option<String>)
        ensures
            ({
                let (s, j) = parse_string_spec(data@, *old(i) as nat);
                &&& *final(i) == j
                &&& match r {
                    Some(x) => s == Some(x@),
                    None => s is None,
                }
            }),
            r matches Some(x) ==> (all_ascii(string_payload(data@, *old(i) as nat))
                ==> x@ == string_payload(data@, *old(i) as nat).map_values(|b: u8| b as char)),
    {
        if *i >= data.len() {
            return None;
        }
        let marker = data[*i];
        *i = *i + 1;
        let len: usize = if marker >= 0x80 && marker <= 0x9F {
            (marker - 0x80) as usize
        } else if marker == 0xD0 {
            if *i >= data.len() {
                return None;
            }
            let l = data[*i] as usize;
            *i = *i + 1;
            l
        } else {
            return None;
        };
        if len > data.len() - *i {
            return None;
        }
        let bytes = copy_range(data, *i, *i + len);
        let s = utf8_lossy(bytes.as_slice());
        *i = *i + len;
        proof {
            if all_ascii(bytes@) {
                lemma_ascii_payload(bytes@);
            }
        }
        Some(s)
    }

    /// Reads a map: skips the marker byte, then reads key/value string pairs
    /// until the data ends or a key cannot be read.
    pub fn parse_map(&self, data: &[u8]) -> (r: Vec<(String, String)>)
        ensures
            r@.map_values(|p: (String, String)| (p.0@, p.1@)) == parse_map_spec(data@),
    {
        let mut result: Vec<(String, String)> = Vec::new();
        if data.len() == 0 {
            assert(result@.map_values(|p: (String, String)| (p.0@, p.1@)) =~= parse_map_spec(data@));
            return result;
        }
        let mut i: usize = 1;
        while i < data.len()
            invariant
                1 <= i,
                data@.len() > 0,
                result@.map_values(|p: (String, String)| (p.0@, p.1@)) + parse_pairs_spec(data@, i as nat)
                    == parse_map_spec(data@),
            decreases data@.len() - i,
        {
            let ghost i0 = i;
            let key = self.parse_string(data, &mut i);
            let val = self.parse_string(data, &mut i);
            match key {
                Some(k) => {
                    let v = match val {
                        Some(x) => x,
                        None => String::new(),
                    };
                    let ghost before = result@.map_values(|p: (String, String)| (p.0@, p.1@));
                    result.push((k, v));
                    proof {
                        assert(result@.map_values(|p: (String, String)| (p.0@, p.1@)) =~= before.push((k@, v@)));
                        assert(i > i0);
                        assert(before + parse_pairs_spec(data@, i0 as nat)
                            =~= before.push((k@, v@)) + parse_pairs_spec(data@, i as nat));
                    }
                },
                None => {
                    proof {
                        assert(parse_pairs_spec(data@, i0 as nat) =~= Seq::<(Seq<char>, Seq<char>)>::empty());
                        assert(result@.map_values(|p: (String, String)| (p.0@, p.1@)) + Seq::<(Seq<char>, Seq<char>)>::empty()
                            =~= result@.map_values(|p: (String, String)| (p.0@, p.1@)));
                    }
                    return result;
                },
            }
        }
        assert(result@.map_values(|p: (String, String)| (p.0@, p.1@)) + parse_pairs_spec(data@, i as nat)
            =~= result@.map_values(|p: (String, String)| (p.0@, p.1@)));
        result
    }

    /// Reads a RUN message body: skips the list marker, reads the query string
    /// (empty if absent) and then a parameter map from the remaining bytes.
    pub fn parse_run(&self, data: &[u8]) -> (r: (String, Vec<(String, String)>))
        ensures
            ({
                let start: nat = if data@.len() > 0 { 1 } else { 0 };
                let (q, j) = parse_string_spec(data@, start);
                &&& r.0@ == match q { Some(x) => x, None => Seq::<char>::empty() }
                &&& r.1@.map_values(|p: (String, String)| (p.0@, p.1@)) == parse_map_spec(data@.subrange(j as int, data@.len() as int))
            }),
    {
        let mut i: usize = 0;
        if i < data.len() {
            i = i + 1;
        }
        let query = match self.parse_string(data, &mut i) {
            Some(q) => q,
            None => String::new(),
        };
        proof {
            let start: nat = if data@.len() > 0 { 1 } else { 0 };
            assert(i <= data@.len()) by {
                let (q, j) = parse_string_spec(data@, start);
                assert(j <= data@.len() || j == start);
            }
        }
        let rest = copy_range(data, i, data.len());
        let params = self.parse_map(rest.as_slice());
        (query, params)
    }
}

impl PackStreamWriter {
    /// Appends the frame of the string `s` (see [`string_frame`]).
    pub fn write_string(&self, buf: &mut Vec<u8>, s: &str)
        ensures
            final(buf)@ == old(buf)@ + string_frame(s.spec_bytes()),
    {
        let bytes = s.as_bytes();
        let n = bytes.len();
        if n < 16 {
            buf.push(0x80u8 + n as u8);
        } else {
            buf.push(0xD0u8);
            buf.push((n % 256) as u8);
        }
        let ghost mid = buf@;
        let mut k: usize = 0;
        while k < n
            invariant
                k <= n,
                n == bytes@.len(),
                buf@ == mid + bytes@.take(k as int),
            decreases n - k,
        {
            buf.push(bytes[k]);
            k = k + 1;
            assert(buf@ =~= mid + bytes@.take(k as int));
        }
        assert(bytes@.take(n as int) =~= bytes@);
        assert(buf@ =~= old(buf)@ + string_frame(s.spec_bytes()));
    }

    /// The SUCCESS message for `metadata`.
    pub fn success_message(&self, metadata: &[(&str, &str)]) -> (buf: Vec<u8>)
        requires
            metadata@.len() <= 95,
        ensures
            buf@ == success_frame(metadata@),
    {
        let mut buf: Vec<u8> = Vec::new();
        buf.push(0x70u8);
        buf.push(0x71u8);
        buf.push(0xA0u8 + metadata.len() as u8);
        let ghost head = buf@;
        let mut k: usize = 0;
        while k < metadata.len()
            invariant
                k <= metadata@.len(),
                buf@ == head + pairs_frame(metadata@.take(k as int)),
            decreases metadata@.len() - k,
        {
            let (key, val) = metadata[k];
            self.write_string(&mut buf, key);
            self.write_string(&mut buf, val);
            proof {
                assert(metadata@.take(k + 1).drop_last() =~= metadata@.take(k as int));
                assert(metadata@.take(k + 1).last() == (key, val));
            }
            k = k + 1;
        }
        assert(metadata@.take(metadata@.len() as int) =~= metadata@);
        assert(buf@ =~= success_frame(metadata@));
        buf
    }

    /// The FAILURE message carrying `message`.
    pub fn failure_message(&self, message: &str) -> (buf: Vec<u8>)
        ensures
            buf@ == failure_frame(message.spec_bytes()),
    {
        let mut buf: Vec<u8> = Vec::new();
        buf.push(0x70u8);
        buf.push(0x7Fu8);
        buf.push(0xA1u8);
        self.write_string(&mut buf, "message");
        self.write_string(&mut buf, message);
        assert(buf@ =~= failure_frame(message.spec_bytes()));
        buf
    }
}

/// What the connection loop does with one client message.
pub enum BoltAction {
    /// Send these bytes.
    Reply(Vec<u8>),
    /// Run this query; answer with [`run_reply`].
    Run { query: String, params: Vec<(String, String)> },
    /// Close the connection.
    Close,
}

/// The reply to a message with signature `sig` other than RUN, or `None`
/// for RUN and GOODBYE.
pub open spec fn reply_for(sig: u8) -> Option<Seq<u8>> {
    if sig == 0x01 {
        Some(success_frame(seq![("server", "ToroidalDB/3.1.0")]))
    } else if sig == 0x3F {
        Some(success_frame(seq![("type", "r")]))
    } else if sig == 0x12 || sig == 0x13 || sig == 0x14 || sig == 0x0F || sig == 0x11 {
        Some(success_frame(Seq::empty()))
    } else if sig == 0x10 || sig == 0x02 {
        None
    } else {
        Some(seq![0x70u8, 0x7Eu8])
    }
}

/// Decides what to do with the client message `msg` (signature byte, then
/// data): HELLO, PULL, BEGIN, COMMIT, ROLLBACK, RESET and DISCARD are
/// answered with SUCCESS, RUN hands its query to the caller, GOODBYE closes,
/// and anything else is answered with IGNORED.
pub fn handle_message(msg: &[u8]) -> (a: BoltAction)
    requires
        msg@.len() > 0,
    ensures
        msg@[0] == 0x02 <==> a is Close,
        msg@[0] == 0x10 <==> a is Run,
        a matches BoltAction::Run { query, params } ==> ({
            let d = msg@.subrange(1, msg@.len() as int);
            let start: nat = if d.len() > 0 { 1 } else { 0 };
            let (q, j) = parse_string_spec(d, start);
            &&& query@ == match q { Some(x) => x, None => Seq::<char>::empty() }
            &&& params@.map_values(|p: (String, String)| (p.0@, p.1@)) == parse_map_spec(d.subrange(j as int, d.len() as int))
        }),
        a matches BoltAction::Reply(bytes) ==> reply_for(msg@[0]) == Some(bytes@),
{
    let sig = msg[0];
    let writer = PackStreamWriter;
    if sig == 0x01 {
        let meta = [("server", "ToroidalDB/3.1.0")];
        let m = meta.as_slice();
        assert(m@ =~= seq![("server", "ToroidalDB/3.1.0")]);
        BoltAction::Reply(writer.success_message(m))
    } else if sig == 0x10 {
        let data = copy_range(msg, 1, msg.len());
        let reader = PackStreamReader::new();
        let (query, params) = reader.parse_run(data.as_slice());
        BoltAction::Run { query, params }
    } else if sig == 0x3F {
        let meta = [("type", "r")];
        let m = meta.as_slice();
        assert(m@ =~= seq![("type", "r")]);
        BoltAction::Reply(writer.success_message(m))
    } else if sig == 0x12 || sig == 0x13 || sig == 0x14 || sig == 0x0F || sig == 0x11 {
        let meta: [(&str, &str); 0] = [];
        let m = meta.as_slice();
        assert(m@ =~= Seq::<(&str, &str)>::empty());
        BoltAction::Reply(writer.success_message(m))
    } else if sig == 0x02 {
        BoltAction::Close
    } else {
        let mut ignored: Vec<u8> = Vec::new();
        ignored.push(0x70u8);
        ignored.push(0x7Eu8);
        assert(ignored@ =~= seq![0x70u8, 0x7Eu8]);
        BoltAction::Reply(ignored)
    }
}

/// The answer to a RUN message once its query has run: SUCCESS with
/// `{"fields": "[]"}` when it succeeded, else FAILURE with the error text.
pub fn run_reply(outcome: Result<(), &str>) -> (buf: Vec<u8>)
    ensures
        match outcome {
            Ok(()) => buf@ == success_frame(seq![("fields", "[]")]),
            Err(e) => buf@ == failure_frame(e.spec_bytes()),
        },
{
    let writer = PackStreamWriter;
    match outcome {
        Ok(()) => {
            let meta = [("fields", "[]")];
            let m = meta.as_slice();
            assert(m@ =~= seq![("fields", "[]")]);
            writer.success_message(m)
        },
        Err(e) => writer.failure_message(e),
    }
}

} // verus!
