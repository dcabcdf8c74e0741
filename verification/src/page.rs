//! The pages that are served, and the QR codes on them.
use qrcode::bits::Bits;
use qrcode::canvas::{Canvas, MaskPattern};
use qrcode::ec::construct_codewords;
use qrcode::{Color, EcLevel, Version};
use vstd::prelude::*;

use crate::bytes::{self, encode_hex};
use crate::list;
use crate::payload::{self, output_payloads};
use crate::text::{self, push_decimal};
use crate::wallet::{OwnedOutput, OwnedView, WalletState};

verus! {

// ---------------------------------------------------------------------------
// Pages
// ---------------------------------------------------------------------------

/// A page up to its title.
pub const PAGE_HEAD: &'static str = "<!DOCTYPE html><html><head><meta charset='utf-8'><meta name='viewport' content='width=device-width,initial-scale=1'><title>";

/// A page between its title and its body.
pub const PAGE_STYLE: &'static str = "</title>
        <style>
        body { background:#000; color:#fff; font-family:ui-monospace,monospace; padding:16px; }
        .qr { background:#fff; padding:12px; display:inline-block; border-radius:8px; }
        .qrs { display:flex; gap:16px; flex-wrap:wrap; }
        .qrs .qr { margin-bottom:8px; }
        h2 { color:#ff6a00; }
        .big { font-size:18px; }
        .err { color:#ff4444; }
        code { background:#222; padding:2px 6px; border-radius:4px; }
        table { border-collapse:collapse; margin-top:16px; }
        td,th { border:1px solid #333; padding:4px 10px; text-align:left; }
        a { color:#ff8c42; }
        </style></head><body>";

/// A page behind its body.
pub const PAGE_TAIL: &'static str = "</body></html>";

/// A page with a title and a body.
pub open spec fn page_text(title: Seq<char>, body: Seq<char>) -> Seq<char> {
    PAGE_HEAD@ + title + PAGE_STYLE@ + body + PAGE_TAIL@
}

/// Makes a page of a title and a body.
pub fn html_page(title: &str, body: &str) -> (r: String)
    ensures
        r@ == page_text(title@, body@),
{
    let mut out: String = PAGE_HEAD.to_owned();
    out.append(title);
    out.append(PAGE_STYLE);
    out.append(body);
    out.append(PAGE_TAIL);
    out
}

/// The page for a path that is not served.
pub fn not_found_page() -> (r: String)
    ensures
        r@ == page_text(
            "xmxx-companion"@,
            "<p>404 — try / or /send?a=&lt;addr&gt;&amp;p=&lt;piconero&gt;</p>"@,
        ),
{
    html_page(
        "xmxx-companion",
        "<p>404 — try / or /send?a=&lt;addr&gt;&amp;p=&lt;piconero&gt;</p>",
    )
}

/// The page for a request that failed.
pub fn error_page(message: &str) -> (r: String)
    ensures
        r@ == page_text("xmxx-companion"@, "<p class='err'>"@ + message@ + "</p>"@),
{
    let mut body: String = "<p class='err'>".to_owned();
    body.append(message);
    body.append("</p>");
    html_page("xmxx-companion", body.as_str())
}

// ---------------------------------------------------------------------------
// QR codes
// ---------------------------------------------------------------------------

/// The most bytes that a QR code can hold in byte mode with error correction level Q.
pub const MAX_CODE_BYTES: usize = 1663;

/// The QR code of a version that holds some data in byte mode with error
/// correction level Q and the mask of a checkerboard: whether each of its modules
/// is dark, row by row; `None` where the data does not fit.
pub uninterp spec fn code_modules(version: i16, data: Seq<u8>) -> Option<Seq<bool>>;

/// How many modules a code of a version has a side.
pub open spec fn code_width(version: int) -> int {
    17 + 4 * version
}

/// `qrcode::bits::Bits::push_byte_data` and `push_terminator` for a version at
/// level Q, then `qrcode::ec::construct_codewords`, which a `qrcode::canvas::Canvas`
/// draws with its functional patterns under the checkerboard mask, and its colors.
/// A code is a square with four modules a side more than one of the version
/// before. The largest version holds exactly the data of up to 1663 bytes, and no
/// version more.
#[verifier::external_body]
fn qr_code(version: i16, data: &[u8]) -> (r: Option<Vec<bool>>)
    requires
        1 <= version <= 40,
    ensures
        match r {
            Some(dark) => code_modules(version, data@) == Some(dark@) && dark.len() == code_width(
                version as int,
            ) * code_width(version as int) && data.len() <= 1663,
            None => code_modules(version, data@) is None && (version == 40 ==> data.len() > 1663),
        },
{
    let (version, level) = (Version::Normal(version), EcLevel::Q);
    let mut bits = Bits::new(version);
    bits.push_byte_data(data).ok()?;
    bits.push_terminator(level).ok()?;
    let (words, corrections) = construct_codewords(&bits.into_bytes(), version, level).ok()?;
    let mut canvas = Canvas::new(version, level);
    canvas.draw_all_functional_patterns();
    canvas.draw_data(&words, &corrections);
    canvas.apply_mask(MaskPattern::Checkerboard);
    Some(canvas.into_colors().into_iter().map(|c| c == Color::Dark).collect())
}

/// The code of the smallest version from one on that holds some data: its width
/// and its modules.
pub open spec fn smallest_from(version: int, data: Seq<u8>) -> Option<(usize, Seq<bool>)>
    decreases 41 - version,
{
    if version > 40 {
        None
    } else {
        match code_modules(version as i16, data) {
            Some(dark) => Some((code_width(version) as usize, dark)),
            None => smallest_from(version + 1, data),
        }
    }
}

/// The QR code for some data: that of the smallest version that holds it.
pub open spec fn qr_modules(data: Seq<u8>) -> Option<(usize, Seq<bool>)> {
    smallest_from(1, data)
}

/// Makes the QR code for some data, where it fits in one.
pub fn make_code(data: &[u8]) -> (r: Option<(usize, Vec<bool>)>)
    ensures
        match r {
            Some(p) => qr_modules(data@) == Some((p.0, p.1@)) && 21 <= p.0 <= 177 && p.1.len()
                == p.0 * p.0,
            None => qr_modules(data@) is None,
        },
        r is Some <==> data.len() <= MAX_CODE_BYTES,
{
    let mut version: i16 = 1;
    while version <= 40
        invariant
            1 <= version <= 41,
            qr_modules(data@) == smallest_from(version as int, data@),
            version == 41 ==> data.len() > 1663,
        decreases 41 - version,
    {
        match qr_code(version, data) {
            Some(dark) => {
                let width: usize = 17 + 4 * version as usize;
                return Some((width, dark));
            },
            None => {},
        }
        version = version + 1;
    }
    None
}

/// How many units a module is wide and high.
pub const CELL: usize = 6;

/// A dark module at a place.
pub open spec fn module_text(x: int, y: int) -> Seq<char> {
    "<rect x='"@ + text::decimal((x * CELL) as nat) + "' y='"@ + text::decimal((y * CELL) as nat)
        + "' width='6' height='6' fill='black'/>"@
}

/// The dark ones among the first modules of a row.
pub open spec fn row_text(width: int, dark: Seq<bool>, y: int, x: int) -> Seq<char>
    decreases x,
{
    if x <= 0 {
        Seq::empty()
    } else {
        row_text(width, dark, y, x - 1) + if dark[y * width + x - 1] {
            module_text(x - 1, y)
        } else {
            Seq::empty()
        }
    }
}

/// The dark modules of the first rows.
pub open spec fn rows_text(width: int, dark: Seq<bool>, y: int) -> Seq<char>
    decreases y,
{
    if y <= 0 {
        Seq::empty()
    } else {
        rows_text(width, dark, y - 1) + row_text(width, dark, y - 1, width)
    }
}

/// A QR code as an image: a white square with the dark modules on it.
pub open spec fn svg_text(width: int, dark: Seq<bool>) -> Seq<char> {
    "<svg xmlns='http://www.w3.org/2000/svg' viewBox='0 0 "@ + text::decimal((width * CELL) as nat)
        + " "@ + text::decimal((width * CELL) as nat) + "' shape-rendering='crispEdges'>"@
        + "<rect width='100%' height='100%' fill='white'/>"@ + rows_text(width, dark, width)
        + "</svg>"@
}

/// The image for some data, given its QR code.
pub open spec fn qr_text(modules: Option<(usize, Seq<bool>)>) -> Seq<char> {
    match modules {
        Some(p) => svg_text(p.0 as int, p.1),
        None => "<p>QR encode failed</p>"@,
    }
}

/// Appends a dark module.
fn push_module(out: &mut String, x: usize, y: usize)
    requires
        x * CELL <= usize::MAX,
        y * CELL <= usize::MAX,
    ensures
        final(out)@ == old(out)@ + module_text(x as int, y as int),
{
    let ghost before = out@;
    out.append("<rect x='");
    push_decimal(out, (x * CELL) as u64);
    out.append("' y='");
    push_decimal(out, (y * CELL) as u64);
    out.append("' width='6' height='6' fill='black'/>");
    assert(out@ =~= before + module_text(x as int, y as int));
}

/// Draws a QR code.
pub fn render(width: usize, dark: &Vec<bool>) -> (r: String)
    requires
        dark.len() == width * width,
        width * CELL <= usize::MAX,
    ensures
        r@ == svg_text(width as int, dark@),
{
    let mut svg: String = "<svg xmlns='http://www.w3.org/2000/svg' viewBox='0 0 ".to_owned();
    push_decimal(&mut svg, (width * CELL) as u64);
    svg.append(" ");
    push_decimal(&mut svg, (width * CELL) as u64);
    svg.append("' shape-rendering='crispEdges'>");
    svg.append("<rect width='100%' height='100%' fill='white'/>");
    let ghost head = svg@;
    let mut y: usize = 0;
    assert(svg@ =~= head + rows_text(width as int, dark@, 0));
    while y < width
        invariant
            y <= width,
            dark.len() == width * width,
            width * CELL <= usize::MAX,
            svg@ == head + rows_text(width as int, dark@, y as int),
        decreases width - y,
    {
        let ghost above = svg@;
        let mut x: usize = 0;
        assert(svg@ =~= above + row_text(width as int, dark@, y as int, 0));
        assert(y * width + width <= width * width) by (nonlinear_arith)
            requires
                y < width,
        ;
        while x < width
            invariant
                x <= width,
                y < width,
                y * width + width <= width * width,
                dark.len() == width * width,
                width * CELL <= usize::MAX,
                svg@ == above + row_text(width as int, dark@, y as int, x as int),
            decreases width - x,
        {
            let ghost left = svg@;
            if dark[y * width + x] {
                push_module(&mut svg, x, y);
            }
            assert(svg@ =~= above + row_text(width as int, dark@, y as int, x + 1));
            x += 1;
        }
        assert(svg@ =~= head + rows_text(width as int, dark@, y + 1));
        y += 1;
    }
    svg.append("</svg>");
    svg
}

/// Renders data as the image of a QR code (byte mode, the smallest version that
/// holds it, error correction level Q). Data of more than 1663 bytes has none.
pub fn qr_svg(data: &[u8]) -> (r: String)
    ensures
        r@ == qr_text(qr_modules(data@)),
        qr_modules(data@) is Some <==> data.len() <= MAX_CODE_BYTES,
{
    match make_code(data) {
        Some(p) => {
            let (width, dark): (usize, Vec<bool>) = p;
            render(width, &dark)
        },
        None => "<p>QR encode failed</p>".to_owned(),
    }
}

// ---------------------------------------------------------------------------
// The sync page
// ---------------------------------------------------------------------------

/// The QR codes of some texts, one behind the other.
pub open spec fn qrs_text(list: Seq<Seq<char>>) -> Seq<char>
    decreases list.len(),
{
    if list.len() == 0 {
        Seq::empty()
    } else {
        qrs_text(list.drop_last()) + qr_text(
            qr_modules(vstd::utf8::encode_utf8(list.last())),
        )
    }
}

/// The row of an output in the table of outputs.
pub open spec fn output_row(o: OwnedView, amount: Seq<char>) -> Seq<char> {
    "<tr><td>"@ + bytes::hex_text(o.tx_pub_key.take(4)) + "</td><td>tx "@ + text::decimal(
        o.index_on_chain as nat,
    ) + "</td><td>idx "@ + text::decimal(o.index_in_tx as nat) + "</td><td>"@ + amount
        + " XMR</td></tr>"@
}

/// The rows of the first outputs.
pub open spec fn output_rows(
    outputs: Seq<OwnedView>,
    amounts: Seq<Seq<char>>,
    n: int,
) -> Seq<char>
    decreases n,
{
    if n <= 0 {
        Seq::empty()
    } else {
        output_rows(outputs, amounts, n - 1) + output_row(outputs[n - 1], amounts[n - 1])
    }
}

/// The body of the sync page.
pub open spec fn sync_body(
    address: Seq<char>,
    balance: Seq<char>,
    outputs: Seq<OwnedView>,
    amounts: Seq<Seq<char>>,
    scanned_to: nat,
) -> Seq<char> {
    "<h2>"@ + address + "</h2><p class='big'>balance: <b>"@ + balance + " XMR</b> · "@
        + text::decimal(outputs.len()) + " output(s) · synced to block "@ + text::decimal(
        scanned_to,
    ) + SYNC_HINT@ + qrs_text(payload::payloads_of(outputs)) + SYNC_TABLE@ + output_rows(
        outputs,
        amounts,
        outputs.len() as int,
    ) + "</table>"@
}

/// Between the height and the QR codes.
pub const SYNC_HINT: &'static str = "</p>
             <p>Hold the Prime over a QR below (one per tx) → scan with the sync tab → the device proves ownership (x·G == P) and derives its key images.</p>
             <div class='qrs'>";

/// Between the QR codes and the rows of the table.
pub const SYNC_TABLE: &'static str = "</div>
             <table><tr><th>R (short)</th><th>global idx</th><th>tx idx</th><th>amount</th></tr>";

/// Draws the QR codes of some payloads.
fn payload_qrs(payloads: &Vec<String>) -> (r: String)
    ensures
        r@ == qrs_text(payload::strings(payloads@)),
{
    let ghost all = payload::strings(payloads@);
    let mut out: String = String::new();
    let mut i: usize = 0;
    assert(all.take(0) =~= Seq::<Seq<char>>::empty());
    assert(out@ =~= Seq::<char>::empty());
    while i < payloads.len()
        invariant
            i <= payloads.len(),
            all == payload::strings(payloads@),
            out@ == qrs_text(all.take(i as int)),
        decreases payloads.len() - i,
    {
        proof {
            assert(all.take(i + 1).drop_last() =~= all.take(i as int));
            assert(all.take(i + 1).last() == payloads[i as int]@);
        }
        out.append(qr_svg(payloads[i].as_str().as_bytes()).as_str());
        i += 1;
    }
    assert(all.take(payloads.len() as int) =~= all);
    out
}

/// Appends the row of an output.
fn push_output_row(out: &mut String, o: &OwnedOutput, amount: &str)
    ensures
        final(out)@ == old(out)@ + output_row(o@, amount@),
{
    let ghost before = out@;
    out.append("<tr><td>");
    let key: &[u8] = &o.tx_pub_key;
    out.append(encode_hex(vstd::slice::slice_subrange(key, 0, 4)).as_str());
    out.append("</td><td>tx ");
    push_decimal(out, o.index_on_chain);
    out.append("</td><td>idx ");
    push_decimal(out, o.index_in_tx);
    out.append("</td><td>");
    out.append(amount);
    out.append(" XMR</td></tr>");
    assert(key@.subrange(0, 4) =~= o@.tx_pub_key.take(4));
    assert(out@ =~= before + output_row(o@, amount@));
}

/// Makes the sync page: the balance, the payload of each transaction as a QR code
/// for the device, and the outputs. The amounts are given in text.
pub fn sync_page(
    address: &str,
    balance: &str,
    state: &WalletState,
    amounts: &Vec<String>,
) -> (r: String)
    requires
        amounts.len() == state.outputs.len(),
    ensures
        r@ == page_text(
            "xmxx sync"@,
            sync_body(
                address@,
                balance@,
                list::views(state.outputs@),
                payload::strings(amounts@),
                state.scanned_to as nat,
            ),
        ),
{
    let ghost all = list::views(state.outputs@);
    let ghost texts = payload::strings(amounts@);
    let payloads: Vec<String> = output_payloads(&state.outputs);
    let qrs: String = payload_qrs(&payloads);
    let mut rows: String = String::new();
    let mut i: usize = 0;
    assert(rows@ =~= output_rows(all, texts, 0));
    while i < state.outputs.len()
        invariant
            i <= state.outputs.len(),
            amounts.len() == state.outputs.len(),
            all == list::views(state.outputs@),
            texts == payload::strings(amounts@),
            rows@ == output_rows(all, texts, i as int),
        decreases state.outputs.len() - i,
    {
        assert(all[i as int] == state.outputs[i as int]@);
        assert(texts[i as int] == amounts[i as int]@);
        push_output_row(&mut rows, &state.outputs[i], amounts[i].as_str());
        i += 1;
    }
    let mut body: String = "<h2>".to_owned();
    body.append(address);
    body.append("</h2><p class='big'>balance: <b>");
    body.append(balance);
    body.append(" XMR</b> · ");
    push_decimal(&mut body, state.outputs.len() as u64);
    body.append(" output(s) · synced to block ");
    push_decimal(&mut body, state.scanned_to as u64);
    body.append(SYNC_HINT);
    body.append(qrs.as_str());
    body.append(SYNC_TABLE);
    body.append(rows.as_str());
    body.append("</table>");
    html_page("xmxx sync", body.as_str())
}

// ---------------------------------------------------------------------------
// The pages for sending
// ---------------------------------------------------------------------------

/// The body of the page with an unsigned transaction.
pub open spec fn send_body(
    amount: Seq<char>,
    to: Seq<char>,
    inputs: nat,
    svg: Seq<char>,
    envelope: Seq<char>,
) -> Seq<char> {
    "<h2>Send "@ + amount + " XMR</h2><p>to <code>"@ + to + SEND_FEE@ + text::decimal(inputs)
        + SEND_HINT@ + svg + SEND_FALLBACK@ + envelope + "</code></p>"@
}

/// Between the destination and the number of inputs.
pub const SEND_FEE: &'static str = "</code></p>
             <p>Fee rate: per-weight (node estimate) · inputs: ";

/// Between the number of inputs and the QR code.
pub const SEND_HINT: &'static str = " · hold the Prime over the QR → review → sign → then open /broadcast and paste the xmr-txsigned hex.</p>
             <div class='qr'>";

/// Between the QR code and the envelope in text.
pub const SEND_FALLBACK: &'static str = "</div>
             <p>hex (fallback): <code style='word-break:break-all'>";

/// Makes the page with an unsigned transaction for the device. The amount is given in text.
pub fn send_page(amount: &str, to: &str, inputs: usize, svg: &str, envelope: &str) -> (r: String)
    ensures
        r@ == page_text(
            "xmxx send — scan with Prime"@,
            send_body(amount@, to@, inputs as nat, svg@, envelope@),
        ),
{
    let mut body: String = "<h2>Send ".to_owned();
    body.append(amount);
    body.append(" XMR</h2><p>to <code>");
    body.append(to);
    body.append(SEND_FEE);
    push_decimal(&mut body, inputs as u64);
    body.append(SEND_HINT);
    body.append(svg);
    body.append(SEND_FALLBACK);
    body.append(envelope);
    body.append("</code></p>");
    html_page("xmxx send — scan with Prime", body.as_str())
}

/// The body of the page for a transaction that the node took.
pub open spec fn broadcast_body(hash: Seq<u8>) -> Seq<char> {
    "<h2>✅ broadcast</h2><p>The transaction was accepted by the node.</p><p>tx hash: <code>"@
        + bytes::hex_text(hash) + "</code></p>"@
}

/// Makes the page for a transaction that the node took.
pub fn broadcast_page(hash: &[u8; 32]) -> (r: String)
    ensures
        r@ == page_text("xmxx broadcast"@, broadcast_body(hash@)),
{
    let mut body: String =
        "<h2>✅ broadcast</h2><p>The transaction was accepted by the node.</p><p>tx hash: <code>".to_owned();
    body.append(encode_hex(hash).as_str());
    body.append("</code></p>");
    html_page("xmxx broadcast", body.as_str())
}

} // verus!
