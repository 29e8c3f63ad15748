//! Phoenix Channels over a WebSocket: how the connection authenticates, and
//! what is made of the frames that arrive. The socket itself is held by
//! whoever runs the connection.

use base64::engine::general_purpose::STANDARD_NO_PAD;
use base64::Engine;
use vstd::prelude::*;
use vstd::utf8::{encode_utf8, encode_utf8_decode_utf8};

use crate::json::says;
use crate::phoenix::{frame_refusal, frame_tree, is_framed, CodecError, PhoenixMessage};

verus! {

/// Why the connection failed.
#[derive(Debug, Clone, PartialEq, Eq)]
pub enum PhoenixSocketError {
    InvalidRequest(String),
    /// The transport's words.
    Connect(String),
    Codec(CodecError),
}

impl PhoenixSocketError {
    /// The error in words.
    pub fn text(&self) -> (text: String)
        ensures
            text@ == match *self {
                PhoenixSocketError::InvalidRequest(message) => "invalid request: "@ + message@,
                PhoenixSocketError::Connect(reason) => reason@,
                PhoenixSocketError::Codec(error) => "malformed message: "@ + error.reason@,
            },
    {
        let mut text = String::new();
        match self {
            PhoenixSocketError::InvalidRequest(message) => {
                text.append("invalid request: ");
                text.append(message.as_str());
                assert(text@ =~= "invalid request: "@ + message@);
            },
            PhoenixSocketError::Connect(reason) => {
                text.append(reason.as_str());
                assert(text@ =~= reason@);
            },
            PhoenixSocketError::Codec(error) => {
                text.append("malformed message: ");
                text.append(error.reason.as_str());
                assert(text@ =~= "malformed message: "@ + error.reason@);
            },
        }
        text
    }
}

/// The character of the standard base64 alphabet for six bits.
pub open spec fn base64_char(six: int) -> char {
    if six < 26 {
        ('A' as u32 + six) as char
    } else if six < 52 {
        ('a' as u32 + six - 26) as char
    } else if six < 62 {
        ('0' as u32 + six - 52) as char
    } else if six == 62 {
        '+'
    } else {
        '/'
    }
}

/// The standard base64 of some bytes, without padding: three bytes become
/// four characters, one or two left over become two or three.
pub open spec fn base64(bytes: Seq<u8>) -> Seq<char>
    decreases bytes.len(),
{
    let a = bytes[0] as int;
    let b = bytes[1] as int;
    let c = bytes[2] as int;
    if bytes.len() == 0 {
        Seq::empty()
    } else if bytes.len() == 1 {
        seq![base64_char(a / 4), base64_char(a % 4 * 16)]
    } else if bytes.len() == 2 {
        seq![
            base64_char(a / 4),
            base64_char(a % 4 * 16 + b / 16),
            base64_char(b % 16 * 4),
        ]
    } else {
        seq![
            base64_char(a / 4),
            base64_char(a % 4 * 16 + b / 16),
            base64_char(b % 16 * 4 + c / 64),
            base64_char(c % 64),
        ] + base64(bytes.skip(3))
    }
}

/// `Engine::encode` of base64's `STANDARD_NO_PAD`: the text's bytes in the
/// standard alphabet, without padding.
#[verifier::external_body]
fn encode_base64(text: &str) -> (encoded: String)
    ensures
        encoded@ == base64(encode_utf8(text@)),
{
    STANDARD_NO_PAD.encode(text)
}

/// The `Sec-WebSocket-Protocol` value that carries the bearer: it travels in
/// this header, never in the URL, so that it stays out of access logs.
/// Despite the `base64url` in the name, what follows the prefix is plain
/// standard-alphabet base64 with padding stripped.
pub fn bearer_subprotocol(token: &str) -> (subprotocol: String)
    ensures
        subprotocol@ == "base64url.bearer.phx."@ + base64(encode_utf8(token@)),
{
    let mut subprotocol = String::new();
    subprotocol.append("base64url.bearer.phx.");
    subprotocol.append(encode_base64(token).as_str());
    assert(subprotocol@ =~= "base64url.bearer.phx."@ + base64(encode_utf8(token@)));
    subprotocol
}

/// The subprotocols that a connection offers: `phoenix`, and the one with the
/// bearer.
pub fn offered_subprotocols(token: &str) -> (offer: String)
    ensures
        offer@ == "phoenix, "@ + ("base64url.bearer.phx."@ + base64(encode_utf8(token@))),
{
    let mut offer = String::new();
    offer.append("phoenix, ");
    offer.append(bearer_subprotocol(token).as_str());
    assert(offer@ =~= "phoenix, "@ + ("base64url.bearer.phx."@ + base64(encode_utf8(token@))));
    offer
}

proof fn lemma_base64_char_injective(x: int, y: int)
    requires
        0 <= x < 64,
        0 <= y < 64,
        base64_char(x) == base64_char(y),
    ensures
        x == y,
{
}

proof fn lemma_base64_injective(x: Seq<u8>, y: Seq<u8>)
    requires
        base64(x) == base64(y),
    ensures
        x == y,
    decreases x.len(),
{
    let u = base64(x);
    let v = base64(y);
    if x.len() == 0 {
        if y.len() > 0 {
            assert(v.len() > 0);
        }
        assert(x =~= y);
    } else if y.len() == 0 {
        assert(u.len() > 0);
    } else {
        assert(u[0] == v[0]);
        assert(u[1] == v[1]);
        let (a, d) = (x[0] as int, y[0] as int);
        lemma_base64_char_injective(a / 4, d / 4);
        if x.len() >= 3 && y.len() >= 3 {
            let (b, e) = (x[1] as int, y[1] as int);
            let (c, f) = (x[2] as int, y[2] as int);
            assert(u[2] == v[2] && u[3] == v[3]);
            lemma_base64_char_injective(a % 4 * 16 + b / 16, d % 4 * 16 + e / 16);
            lemma_base64_char_injective(b % 16 * 4 + c / 64, e % 16 * 4 + f / 64);
            lemma_base64_char_injective(c % 64, f % 64);
            assert(u.skip(4) =~= base64(x.skip(3)));
            assert(v.skip(4) =~= base64(y.skip(3)));
            lemma_base64_injective(x.skip(3), y.skip(3));
            assert(x =~= seq![x[0], x[1], x[2]] + x.skip(3));
            assert(y =~= seq![y[0], y[1], y[2]] + y.skip(3));
        } else {
            assert(u.len() == v.len());
            assert(x.len() == y.len());
            if x.len() == 1 {
                lemma_base64_char_injective(a % 4 * 16, d % 4 * 16);
            } else {
                let (b, e) = (x[1] as int, y[1] as int);
                assert(u[2] == v[2]);
                lemma_base64_char_injective(a % 4 * 16 + b / 16, d % 4 * 16 + e / 16);
                lemma_base64_char_injective(b % 16 * 4, e % 16 * 4);
            }
            assert(x =~= y);
        }
    }
}

/// The token can be told from what travels: no two tokens travel alike.
pub proof fn tokens_travel_unmistakably(a: Seq<char>, b: Seq<char>)
    requires
        base64(encode_utf8(a)) == base64(encode_utf8(b)),
    ensures
        a == b,
{
    lemma_base64_injective(encode_utf8(a), encode_utf8(b));
    encode_utf8_decode_utf8(a);
    encode_utf8_decode_utf8(b);
}

/// What arrived on the socket.
#[derive(Debug, Clone, PartialEq, Eq)]
pub enum Arrival {
    /// A text frame.
    Text(String),
    /// A close frame, or the end of the stream.
    Closed,
    /// A ping, a pong or a binary frame.
    Other,
    /// The transport failed, in its words.
    Failed(String),
}

/// What comes of it.
#[derive(Debug)]
pub enum Delivery {
    Message(PhoenixMessage),
    Closed,
    /// Nothing: wait for the next frame.
    Again,
    Failed(PhoenixSocketError),
}

/// What is made of a frame that arrived. Phoenix only speaks JSON text frames:
/// all others are read over.
pub fn deliver(arrival: Arrival) -> (delivery: Delivery)
    ensures
        match arrival {
            Arrival::Text(text) => match delivery {
                Delivery::Message(message) => says(text@, frame_tree(message@)),
                Delivery::Failed(PhoenixSocketError::Codec(error)) => !is_framed(text@)
                    && error.reason@ == frame_refusal(text@),
                _ => false,
            },
            Arrival::Closed => delivery is Closed,
            Arrival::Other => delivery is Again,
            Arrival::Failed(reason) => delivery matches Delivery::Failed(
                PhoenixSocketError::Connect(said),
            ) && said@ == reason@,
        },
{
    match arrival {
        Arrival::Text(text) => match PhoenixMessage::from_json(text.as_str()) {
            Ok(message) => Delivery::Message(message),
            Err(error) => Delivery::Failed(PhoenixSocketError::Codec(error)),
        },
        Arrival::Closed => Delivery::Closed,
        Arrival::Other => Delivery::Again,
        Arrival::Failed(reason) => Delivery::Failed(PhoenixSocketError::Connect(reason)),
    }
}

/// The alphabet of base64, from zero to sixty-three.
pub open spec fn alphabet() -> Seq<char> {
    seq![
        'A', 'B', 'C', 'D', 'E', 'F', 'G', 'H', 'I', 'J', 'K', 'L', 'M', 'N', 'O', 'P',
        'Q', 'R', 'S', 'T', 'U', 'V', 'W', 'X', 'Y', 'Z', 'a', 'b', 'c', 'd', 'e', 'f',
        'g', 'h', 'i', 'j', 'k', 'l', 'm', 'n', 'o', 'p', 'q', 'r', 's', 't', 'u', 'v',
        'w', 'x', 'y', 'z', '0', '1', '2', '3', '4', '5', '6', '7', '8', '9', '+', '/',
    ]
}

/// Six bits are written with the letter of the alphabet at that place.
pub proof fn letters_stand_for_their_places(six: int)
    requires
        0 <= six < 64,
    ensures
        alphabet().len() == 64,
        base64_char(six) == alphabet()[six],
{
    let letters = alphabet();
    assert(letters[0] == 'A');
    assert(letters[1] == 'B');
    assert(letters[2] == 'C');
    assert(letters[3] == 'D');
    assert(letters[4] == 'E');
    assert(letters[5] == 'F');
    assert(letters[6] == 'G');
    assert(letters[7] == 'H');
    assert(letters[8] == 'I');
    assert(letters[9] == 'J');
    assert(letters[10] == 'K');
    assert(letters[11] == 'L');
    assert(letters[12] == 'M');
    assert(letters[13] == 'N');
    assert(letters[14] == 'O');
    assert(letters[15] == 'P');
    assert(letters[16] == 'Q');
    assert(letters[17] == 'R');
    assert(letters[18] == 'S');
    assert(letters[19] == 'T');
    assert(letters[20] == 'U');
    assert(letters[21] == 'V');
    assert(letters[22] == 'W');
    assert(letters[23] == 'X');
    assert(letters[24] == 'Y');
    assert(letters[25] == 'Z');
    assert(letters[26] == 'a');
    assert(letters[27] == 'b');
    assert(letters[28] == 'c');
    assert(letters[29] == 'd');
    assert(letters[30] == 'e');
    assert(letters[31] == 'f');
    assert(letters[32] == 'g');
    assert(letters[33] == 'h');
    assert(letters[34] == 'i');
    assert(letters[35] == 'j');
    assert(letters[36] == 'k');
    assert(letters[37] == 'l');
    assert(letters[38] == 'm');
    assert(letters[39] == 'n');
    assert(letters[40] == 'o');
    assert(letters[41] == 'p');
    assert(letters[42] == 'q');
    assert(letters[43] == 'r');
    assert(letters[44] == 's');
    assert(letters[45] == 't');
    assert(letters[46] == 'u');
    assert(letters[47] == 'v');
    assert(letters[48] == 'w');
    assert(letters[49] == 'x');
    assert(letters[50] == 'y');
    assert(letters[51] == 'z');
    assert(letters[52] == '0');
    assert(letters[53] == '1');
    assert(letters[54] == '2');
    assert(letters[55] == '3');
    assert(letters[56] == '4');
    assert(letters[57] == '5');
    assert(letters[58] == '6');
    assert(letters[59] == '7');
    assert(letters[60] == '8');
    assert(letters[61] == '9');
    assert(letters[62] == '+');
    assert(letters[63] == '/');
}

proof fn lemma_sixes(x: int, y: int, z: int)
    requires
        0 <= x < 256,
        0 <= y < 256,
        0 <= z < 256,
    ensures
        ({
            let n = 65536 * x + 256 * y + z;
            &&& n / 262144 == x / 4
            &&& n / 4096 % 64 == x % 4 * 16 + y / 16
            &&& n / 64 % 64 == y % 16 * 4 + z / 64
            &&& n % 64 == z % 64
        }),
        x * 16 % 64 == x % 4 * 16,
        y * 4 % 64 == y % 16 * 4,
        (256 * x + y) / 16 % 64 == x % 4 * 16 + y / 16,
{
    let (p, q) = (x / 4, x % 4);
    let (r, s) = (y / 16, y % 16);
    let (t, u) = (z / 64, z % 64);
    let n = 65536 * x + 256 * y + z;
    assert(n == 262144 * p + (65536 * q + 4096 * r + 256 * s + 64 * t + u));
    assert(n / 262144 == p);
    assert(n / 4096 == 64 * p + (16 * q + r));
    assert(n / 64 == 64 * (64 * p + 16 * q + r) + (4 * s + t));
    assert((256 * x + y) / 16 == 64 * p + (16 * q + r));
}

/// Three bytes are a number of twenty-four bits, of which each letter is six,
/// the highest first; and what is encoded goes three bytes at a time.
#[verifier::rlimit(40)]
#[verifier::spinoff_prover]
pub proof fn three_bytes_are_four_letters(a: u8, b: u8, c: u8, rest: Seq<u8>)
    ensures
        ({
            let n = 65536 * a + 256 * b + c;
            base64(seq![a, b, c] + rest) == seq![
                alphabet()[n / 262144],
                alphabet()[n / 4096 % 64],
                alphabet()[n / 64 % 64],
                alphabet()[n % 64],
            ] + base64(rest)
        }),
        base64(seq![a]) == seq![alphabet()[a as int / 4], alphabet()[a as int * 16 % 64]],
        base64(seq![a, b]) == seq![
            alphabet()[a as int / 4],
            alphabet()[(256 * a + b) / 16 % 64],
            alphabet()[b as int * 4 % 64],
        ],
{
    let x = a as int;
    let y = b as int;
    let z = c as int;
    let whole = seq![a, b, c] + rest;
    assert(whole[0] == a && whole[1] == b && whole[2] == c);
    assert(whole.skip(3) =~= rest);
    lemma_sixes(x, y, z);
    letters_stand_for_their_places(x / 4);
    letters_stand_for_their_places(x % 4 * 16);
    letters_stand_for_their_places(x % 4 * 16 + y / 16);
    letters_stand_for_their_places(y % 16 * 4);
    letters_stand_for_their_places(y % 16 * 4 + z / 64);
    letters_stand_for_their_places(z % 64);
}

} // verus!
