//! Steam sign-in through the QR flow of the authentication service: what a
//! started session holds, how a poll answer moves it on, and the scannable
//! image of its challenge.

use vstd::prelude::*;
use base64::Engine as _;
use std::time::Duration;

verus! {

/// A pending QR sign-in: the challenge URL is shown as a QR code, and the
/// session is polled every `interval`.
pub struct QrSession {
    pub client_id: u64,
    pub request_id: Vec<u8>,
    pub challenge_url: String,
    pub interval: Duration,
}

/// The tokens of a completed sign-in.
#[derive(Debug, Clone)]
pub struct Tokens {
    pub account_name: String,
    pub refresh_token: String,
    pub access_token: String,
}

/// What one poll of a pending session found.
pub enum Poll {
    /// Still waiting for the user to scan and approve.
    Pending,
    /// Steam rotated the QR: the session's challenge URL changed and must be
    /// shown again.
    Rotated,
    /// The user approved; sign-in is complete.
    Done(Tokens),
}

/// The fields of the service's answer to a poll that decide what happens.
pub struct PollResponse {
    pub new_client_id: u64,
    pub new_challenge_url: String,
    pub refresh_token: String,
    pub access_token: String,
    pub account_name: String,
}

/// Why a sign-in step failed.
#[derive(Debug)]
pub enum SteamAuthError {
    /// The service started a session without a QR challenge.
    NoChallenge,
    /// The challenge could not be encoded as a QR code.
    QrCode(qrcode::types::QrError),
}

/// An error of the QR code encoder.
#[verifier::external_type_specification]
#[verifier::external_body]
pub struct ExQrError(qrcode::types::QrError);

/// Starts a session from the service's answer; an answer without a
/// challenge URL is refused.
pub fn session_from_begin(
    client_id: u64,
    request_id: Vec<u8>,
    challenge_url: String,
    interval: Duration,
) -> (r: Result<QrSession, SteamAuthError>)
    ensures
        challenge_url@.len() == 0 <==> r matches Err(SteamAuthError::NoChallenge),
        challenge_url@.len() > 0 ==> r is Ok,
        r matches Ok(s) ==> s.client_id == client_id && s.request_id@ == request_id@
            && s.challenge_url@ == challenge_url@ && s.interval == interval,
{
    if challenge_url.unicode_len() == 0 {
        return Err(SteamAuthError::NoChallenge);
    }
    Ok(QrSession { client_id, request_id, challenge_url, interval })
}

/// Moves a pending session on by the service's answer to a poll: a refresh
/// token completes the sign-in; otherwise a new client id is adopted, and a
/// new challenge URL that differs from the shown one rotates the QR.
pub fn apply_poll_response(session: &mut QrSession, resp: PollResponse) -> (r: Poll)
    ensures
        resp.refresh_token@.len() > 0 ==> {
            &&& r matches Poll::Done(t) && t.account_name@ == resp.account_name@
                && t.refresh_token@ == resp.refresh_token@ && t.access_token@
                == resp.access_token@
            &&& final(session).client_id == old(session).client_id
            &&& final(session).challenge_url@ == old(session).challenge_url@
        },
        resp.refresh_token@.len() == 0 ==> {
            let rotated = resp.new_challenge_url@.len() > 0 && resp.new_challenge_url@ != old(
                session,
            ).challenge_url@;
            &&& final(session).client_id == (if resp.new_client_id != 0 {
                resp.new_client_id
            } else {
                old(session).client_id
            })
            &&& rotated ==> r is Rotated && final(session).challenge_url@
                == resp.new_challenge_url@
            &&& !rotated ==> r is Pending && final(session).challenge_url@ == old(
                session,
            ).challenge_url@
        },
        final(session).request_id@ == old(session).request_id@,
        final(session).interval == old(session).interval,
{
    if resp.refresh_token.unicode_len() > 0 {
        return Poll::Done(
            Tokens {
                account_name: resp.account_name,
                refresh_token: resp.refresh_token,
                access_token: resp.access_token,
            },
        );
    }
    if resp.new_client_id != 0 {
        session.client_id = resp.new_client_id;
    }
    if resp.new_challenge_url.unicode_len() > 0 && !crate::text::str_eq(
        resp.new_challenge_url.as_str(),
        session.challenge_url.as_str(),
    ) {
        session.challenge_url = resp.new_challenge_url;
        return Poll::Rotated;
    }
    Poll::Pending
}

/// Whether the QR encoder accepts the bytes of `data`.
pub uninterp spec fn qr_encodes(data: Seq<char>) -> bool;

/// The SVG image that the QR encoder draws for the bytes of `data`, at
/// least `min_size` pixels wide and high, in the given colours.
pub uninterp spec fn qr_svg(data: Seq<char>, min_size: u32, dark: Seq<char>, light: Seq<char>) -> Seq<
    char,
>;

/// The character of the standard base64 alphabet for the six bits `v`.
pub open spec fn base64_digit(v: int) -> char {
    if v < 26 {
        (65 + v) as char
    } else if v < 52 {
        (97 + v - 26) as char
    } else if v < 62 {
        (48 + v - 52) as char
    } else if v == 62 {
        '+'
    } else {
        '/'
    }
}

/// The standard base64 encoding of `b`: each group of three bytes becomes
/// four digits, and a last group of one or two bytes is padded with `=`.
pub open spec fn base64_bytes(b: Seq<u8>) -> Seq<char>
    decreases b.len(),
{
    if b.len() == 0 {
        Seq::empty()
    } else if b.len() == 1 {
        let n = b[0] * 65536;
        seq![base64_digit(n / 262144), base64_digit((n / 4096) % 64), '=', '=']
    } else if b.len() == 2 {
        let n = b[0] * 65536 + b[1] * 256;
        seq![
            base64_digit(n / 262144),
            base64_digit((n / 4096) % 64),
            base64_digit((n / 64) % 64),
            '=',
        ]
    } else {
        let n = b[0] * 65536 + b[1] * 256 + b[2];
        seq![
            base64_digit(n / 262144),
            base64_digit((n / 4096) % 64),
            base64_digit((n / 64) % 64),
            base64_digit(n % 64),
        ] + base64_bytes(b.subrange(3, b.len() as int))
    }
}

/// The standard base64 encoding, with padding, of the UTF-8 bytes of `text`.
pub open spec fn base64_standard(text: Seq<char>) -> Seq<char> {
    base64_bytes(vstd::utf8::encode_utf8(text))
}

/// Trusted: `qrcode::QrCode::new` on the bytes of `data`, drawn by its SVG
/// renderer with `min_dimensions(min_size, min_size)` and the two colours.
/// Claims only that success and the image depend on the arguments alone.
/// `min_dimensions` adds the code's width in modules to `min_size` in a
/// `u32`, so `min_size` is kept small enough for that sum to fit.
#[verifier::external_body]
fn render_qr_svg(data: &str, min_size: u32, dark: &str, light: &str) -> (r: Result<
    String,
    qrcode::types::QrError,
>)
    requires
        min_size <= 0xffff,
    ensures
        r is Ok <==> qr_encodes(data@),
        r matches Ok(svg) ==> svg@ == qr_svg(data@, min_size, dark@, light@),
{
    let code = qrcode::QrCode::new(data.as_bytes())?;
    Ok(
        code.render::<qrcode::render::svg::Color>().min_dimensions(min_size, min_size).dark_color(
            qrcode::render::svg::Color(dark),
        ).light_color(qrcode::render::svg::Color(light)).build(),
    )
}

/// Trusted: `base64::engine::general_purpose::STANDARD.encode` on the bytes
/// of `text`: the standard alphabet with padding, as the crate documents.
/// Its buffer size check cannot fail for a string held in memory.
#[verifier::external_body]
fn encode_base64(text: &str) -> (r: String)
    ensures
        r@ == base64_standard(text@),
{
    base64::engine::general_purpose::STANDARD.encode(text)
}

/// The `data:` URL of an SVG image whose base64 form is `encoded`.
pub fn svg_data_url(encoded: &str) -> (r: String)
    ensures
        r@ == "data:image/svg+xml;base64,"@ + encoded@,
{
    crate::text::concat2("data:image/svg+xml;base64,", encoded)
}

/// The challenge URL as a scannable QR code, black on white and at least
/// 256 pixels square, given as an SVG `data:` URL.
pub fn qr_data_url(challenge_url: &str) -> (r: Result<String, SteamAuthError>)
    ensures
        r is Ok <==> qr_encodes(challenge_url@),
        r matches Ok(url) ==> url@ == "data:image/svg+xml;base64,"@ + base64_standard(
            qr_svg(challenge_url@, 256, "#000000"@, "#ffffff"@),
        ),
        r matches Err(e) ==> e is QrCode,
{
    match render_qr_svg(challenge_url, 256, "#000000", "#ffffff") {
        Ok(svg) => {
            let encoded = encode_base64(svg.as_str());
            Ok(svg_data_url(encoded.as_str()))
        },
        Err(e) => Err(SteamAuthError::QrCode(e)),
    }
}

} // verus!
