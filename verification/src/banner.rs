//! What the server shows when it starts: its address, also as a QR code.
use vstd::prelude::*;

use crate::text::{
    decimal, decimal_reads_back, decimal_spells_the_number, format_number, join, number_value,
    NumberError,
};

verus! {

/// The address at which browsers find the server.
pub open spec fn url_text(host: Seq<char>, port: u16) -> Seq<char> {
    "https://"@ + host + ":"@ + decimal(port as nat)
}

/// The address at which browsers find the server. Where its own address in the local network is
/// not known, it is reachable from the same machine only.
pub fn listen_url(lan_ip: Option<String>, port: u16) -> (r: String)
    ensures
        r@ == url_text(
            match lan_ip {
                Some(ip) => ip@,
                None => "localhost"@,
            },
            port,
        ),
{
    let host = match lan_ip {
        Some(ip) => ip,
        None => "localhost".to_string(),
    };
    let mut r = join("https://", host.as_str());
    r.append(":");
    r.append(format_number(port as u32).as_str());
    r
}

/// The QR code symbol of a text: the number of modules on each side, and for each module, line by
/// line, whether it is dark; `None` where there is no such symbol.
pub uninterp spec fn qr_symbol(text: Seq<char>) -> Option<(nat, Seq<bool>)>;

/// Whether the module at the given place is dark; outside of the symbol everything is light.
pub open spec fn is_dark(side: nat, modules: Seq<bool>, x: int, y: int) -> bool {
    0 <= x < side && 0 <= y < side && modules[y * side + x]
}

/// The drawing of a symbol: lines of characters, two for each module, with a border of four light
/// modules.
pub open spec fn qr_drawing(side: nat, modules: Seq<bool>) -> Seq<char> {
    let columns: int = 2 * (side as int + 8);
    Seq::new(
        ((side + 8) * (columns + 1) - 1) as nat,
        |k: int|
            if k % (columns + 1) == columns {
                '\n'
            } else if is_dark(side, modules, k % (columns + 1) / 2 - 4, k / (columns + 1) - 4) {
                '\u{2588}'
            } else {
                ' '
            },
    )
}

/// The longest text that is drawn, in characters: more than any address in a local network takes.
pub const QR_TEXT_LIMIT: usize = 64;

/// `QrCode::new` of the crate `qrcode`, and the drawing by its renderer with a quiet zone and
/// modules of two by one characters. Which symbol there is depends on the text alone; it is a
/// square. The drawing shows each dark module as two block characters and each light one as two
/// spaces.
///
/// The text is short because the crate adds up the penalty scores of a symbol in 16 bits. Texts of
/// this length, at most 256 bytes, lead to symbols of at most 65 modules on a side, whose scores
/// cannot exceed that; those of the largest symbols can.
#[verifier::external_body]
fn draw_qr(text: &str) -> (r: Option<String>)
    requires
        text@.len() <= QR_TEXT_LIMIT,
    ensures
        match r {
            Some(drawing) => {
                &&& qr_symbol(text@) matches Some((side, modules))
                &&& modules.len() == side * side
                &&& drawing@ == qr_drawing(side, modules)
            },
            None => qr_symbol(text@) is None,
        },
{
    match qrcode::QrCode::new(text.as_bytes()) {
        Ok(code) => Some(
            code.render::<char>().quiet_zone(true).module_dimensions(2, 1).build(),
        ),
        Err(_) => None,
    }
}

/// A drawing with the address below it.
pub open spec fn banner_text(drawing: Seq<char>, url: Seq<char>) -> Seq<char> {
    "\n"@ + drawing + "\n  "@ + url + "\n"@
}

/// Puts the address below the drawing.
pub fn banner(drawing: &str, url: &str) -> (r: String)
    ensures
        r@ == banner_text(drawing@, url@),
{
    let mut r = join("\n", drawing);
    r.append("\n  ");
    r.append(url);
    r.append("\n");
    r
}

/// The address as a QR code with the text below it, or `None` where there is no QR code of the
/// address.
pub fn qr_banner(url: &str) -> (r: Option<String>)
    requires
        url@.len() <= QR_TEXT_LIMIT,
    ensures
        match r {
            Some(text) => {
                &&& qr_symbol(url@) matches Some((side, modules))
                &&& modules.len() == side * side
                &&& text@ == banner_text(qr_drawing(side, modules), url@)
            },
            None => qr_symbol(url@) is None,
        },
{
    match draw_qr(url) {
        Some(drawing) => Some(banner(drawing.as_str(), url)),
        None => None,
    }
}

/// The address is a secure one, with the host as it is given and a port that reads back.
pub proof fn address_names_host_and_port(host: Seq<char>, port: u16)
    ensures
        ({
            let url = url_text(host, port);
            let colon = 8 + host.len() as int;
            &&& url.len() > colon
            &&& url.take(8) == "https://"@
            &&& url.subrange(8, colon) == host
            &&& url[colon] == ':'
            &&& number_value(url.skip(colon + 1), 65535) == Ok::<nat, NumberError>(port as nat)
        }),
{
    reveal_strlit("https://");
    reveal_strlit(":");
    decimal_spells_the_number(port as nat);
    decimal_reads_back(port as nat, 65535);
    let url = url_text(host, port);
    let colon = 8 + host.len() as int;
    assert(url.take(8) =~= "https://"@);
    assert(url.subrange(8, colon) =~= host);
    assert(url.skip(colon + 1) =~= decimal(port as nat));
}

/// The banner shows the drawing as it is, on lines of its own, and the address below it.
pub proof fn banner_shows_drawing_and_address(drawing: Seq<char>, url: Seq<char>)
    ensures
        ({
            let text = banner_text(drawing, url);
            let below = 1 + drawing.len() as int;
            &&& text.len() == drawing.len() + url.len() + 5
            &&& text[0] == '\n'
            &&& text.subrange(1, below) == drawing
            &&& text[below] == '\n'
            &&& text[below + 1] == ' '
            &&& text[below + 2] == ' '
            &&& text.subrange(below + 3, below + 3 + url.len()) == url
            &&& text[text.len() - 1] == '\n'
        }),
{
    reveal_strlit("\n");
    reveal_strlit("\n  ");
    let text = banner_text(drawing, url);
    let below = 1 + drawing.len() as int;
    assert(text.subrange(1, below) =~= drawing);
    assert(text.subrange(below + 3, below + 3 + url.len()) =~= url);
}

} // verus!
