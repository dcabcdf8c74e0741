//! The state file: the owned outputs and how far the wallet is scanned.
use vstd::prelude::*;

use crate::bytes::{self, bytes_32, decode_hex, encode_hex};
use crate::config::{self, parse_height};
use crate::list;
use crate::text::{self, chars_of, parse_u64, push_decimal, split, string_of};
use crate::wallet::{OwnedOutput, OwnedView, WalletState};

verus! {

/// What a wallet state says.
#[verifier::ext_equal]
pub struct StateView {
    pub outputs: Seq<OwnedView>,
    pub scanned_to: usize,
}

impl View for WalletState {
    type V = StateView;

    open spec fn view(&self) -> StateView {
        StateView { outputs: list::views(self.outputs@), scanned_to: self.scanned_to }
    }
}

/// The name of the file that the state is kept in, beside the view key file.
pub fn state_file(view_key_file: &str) -> (r: String)
    ensures
        r@ == view_key_file@ + ".state.json"@,
{
    let mut name: String = view_key_file.to_owned();
    name.append(".state.json");
    name
}

// ---------------------------------------------------------------------------
// Writing
// ---------------------------------------------------------------------------

/// The line of an output: its fields with spaces between them.
pub open spec fn output_line(o: OwnedView) -> Seq<char> {
    let a = bytes::hex_text(o.tx_pub_key);
    let b = a.push(' ') + text::decimal(o.index_in_tx as nat);
    let c = b.push(' ') + text::decimal(o.index_on_chain as nat);
    let d = c.push(' ') + bytes::hex_text(o.key);
    let e = d.push(' ') + text::decimal(o.amount as nat);
    e.push(' ') + bytes::hex_text(o.wallet_output)
}

/// The lines of a state without the line break at the end: the height that the
/// wallet is scanned to, then the outputs.
pub open spec fn state_lines(outputs: Seq<OwnedView>, scanned_to: usize) -> Seq<char>
    decreases outputs.len(),
{
    if outputs.len() == 0 {
        text::decimal(scanned_to as nat)
    } else {
        state_lines(outputs.drop_last(), scanned_to).push('\n') + output_line(outputs.last())
    }
}

/// What the file of a state holds.
pub open spec fn stored(state: StateView) -> Seq<char> {
    state_lines(state.outputs, state.scanned_to).push('\n')
}

/// Appends the line of an output.
fn push_line(out: &mut String, o: &OwnedOutput)
    ensures
        final(out)@ == old(out)@ + output_line(o@),
{
    let ghost before = out@;
    out.append(encode_hex(&o.tx_pub_key).as_str());
    out.push(' ');
    push_decimal(out, o.index_in_tx);
    out.push(' ');
    push_decimal(out, o.index_on_chain);
    out.push(' ');
    out.append(encode_hex(&o.key).as_str());
    out.push(' ');
    push_decimal(out, o.amount);
    out.push(' ');
    out.append(encode_hex(o.wallet_output.as_slice()).as_str());
    assert(out@ =~= before + output_line(o@));
}

/// Writes a state: what its file holds.
pub fn state_text(state: &WalletState) -> (r: String)
    ensures
        r@ == stored(state@),
{
    let ghost all = state@.outputs;
    let mut out: String = String::new();
    push_decimal(&mut out, state.scanned_to as u64);
    let mut i: usize = 0;
    assert(all.take(0) =~= Seq::<OwnedView>::empty());
    assert(out@ =~= state_lines(all.take(0), state.scanned_to));
    while i < state.outputs.len()
        invariant
            i <= state.outputs.len(),
            all == list::views(state.outputs@),
            out@ == state_lines(all.take(i as int), state.scanned_to),
        decreases state.outputs.len() - i,
    {
        proof {
            assert(all.take(i + 1).drop_last() =~= all.take(i as int));
            assert(all.take(i + 1).last() == state.outputs[i as int]@);
        }
        out.push('\n');
        push_line(&mut out, &state.outputs[i]);
        i += 1;
    }
    assert(all.take(state.outputs.len() as int) =~= all);
    out.push('\n');
    out
}

// ---------------------------------------------------------------------------
// Reading
// ---------------------------------------------------------------------------

/// The key of 32 bytes that a text in hexadecimal stands for.
pub open spec fn key_in(s: Seq<char>) -> Option<Seq<u8>> {
    match bytes::hex_decoded_text(s) {
        Ok(b) => if b.len() == 32 {
            Some(b)
        } else {
            None
        },
        Err(_) => None,
    }
}

/// The output that some fields stand for.
pub open spec fn output_in(fields: Seq<Seq<char>>) -> Option<OwnedView> {
    if fields.len() != 6 {
        None
    } else {
        match (
            key_in(fields[0]),
            text::parsed_u64(fields[1]),
            text::parsed_u64(fields[2]),
            key_in(fields[3]),
            text::parsed_u64(fields[4]),
            bytes::hex_decoded_text(fields[5]),
        ) {
            (
                Some(tx_pub_key),
                Some(index_in_tx),
                Some(index_on_chain),
                Some(key),
                Some(amount),
                Ok(wallet_output),
            ) => Some(
                OwnedView { tx_pub_key, index_in_tx, index_on_chain, key, amount, wallet_output },
            ),
            _ => None,
        }
    }
}

/// The output that a line stands for.
pub open spec fn line_fn() -> spec_fn(Seq<char>) -> Result<OwnedView, ()> {
    |line: Seq<char>|
        match output_in(text::pieces(line, ' ')) {
            Some(o) => Ok(o),
            None => Err(()),
        }
}

/// The state that the text of a file stands for; `None` where it stands for none.
pub open spec fn state_in(content: Seq<char>) -> Option<StateView> {
    let lines = text::pieces(content, '\n');
    if lines.len() < 2 || lines.last().len() != 0 {
        None
    } else {
        match config::parsed_height(lines[0]) {
            None => None,
            Some(scanned_to) => match list::each(
                lines.subrange(1, lines.len() - 1),
                line_fn(),
            ) {
                Ok(outputs) => Some(StateView { outputs, scanned_to }),
                Err(_) => None,
            },
        }
    }
}

/// Reads a key.
fn parse_key(s: &Vec<char>) -> (r: Option<[u8; 32]>)
    ensures
        match r {
            Some(k) => key_in(s@) == Some(k@),
            None => key_in(s@) is None,
        },
{
    match decode_hex(string_of(s).as_str()) {
        Ok(b) => bytes_32(b.as_slice()),
        Err(_) => None,
    }
}

/// Reads the line of an output.
fn parse_line(line: &Vec<char>) -> (r: Option<OwnedOutput>)
    ensures
        match r {
            Some(o) => output_in(text::pieces(line@, ' ')) == Some(o@),
            None => output_in(text::pieces(line@, ' ')) is None,
        },
{
    let fields: Vec<Vec<char>> = split(line, ' ');
    if fields.len() != 6 {
        return None;
    }
    proof {
        let all = text::pieces(line@, ' ');
        assert(all[0] == fields@[0]@ && all[1] == fields@[1]@ && all[2] == fields@[2]@);
        assert(all[3] == fields@[3]@ && all[4] == fields@[4]@ && all[5] == fields@[5]@);
    }
    let tx_pub_key: Option<[u8; 32]> = parse_key(&fields[0]);
    let index_in_tx: Option<u64> = parse_u64(&fields[1]);
    let index_on_chain: Option<u64> = parse_u64(&fields[2]);
    let key: Option<[u8; 32]> = parse_key(&fields[3]);
    let amount: Option<u64> = parse_u64(&fields[4]);
    match decode_hex(string_of(&fields[5]).as_str()) {
        Err(_) => None,
        Ok(wallet_output) => match (tx_pub_key, index_in_tx, index_on_chain, key, amount) {
            (
                Some(tx_pub_key),
                Some(index_in_tx),
                Some(index_on_chain),
                Some(key),
                Some(amount),
            ) => Some(
                OwnedOutput { tx_pub_key, index_in_tx, index_on_chain, key, amount, wallet_output },
            ),
            _ => None,
        },
    }
}

/// Reads a state from the text of its file.
pub fn parse_state(content: &str) -> (r: Option<WalletState>)
    ensures
        match r {
            Some(state) => state_in(content@) == Some(state@),
            None => state_in(content@) is None,
        },
{
    let whole: Vec<char> = chars_of(content);
    let lines: Vec<Vec<char>> = split(&whole, '\n');
    let ghost all = text::pieces(content@, '\n');
    if lines.len() < 2 {
        return None;
    }
    assert(all.last() == lines@[lines.len() - 1]@);
    if lines[lines.len() - 1].len() != 0 {
        return None;
    }
    assert(all[0] == lines@[0]@);
    let scanned_to: usize = match parse_height(string_of(&lines[0]).as_str()) {
        None => {
            return None;
        },
        Some(h) => h,
    };
    let ghost items = all.subrange(1, all.len() - 1);
    let mut outputs: Vec<OwnedOutput> = Vec::new();
    let mut i: usize = 1;
    assert(items.take(0) =~= Seq::<Seq<char>>::empty());
    assert(list::views(outputs@) =~= Seq::<OwnedView>::empty());
    while i < lines.len() - 1
        invariant
            1 <= i <= lines.len() - 1,
            all == text::pieces(content@, '\n'),
            text::texts(lines@) == all,
            all.last().len() == 0,
            items == all.subrange(1, all.len() - 1),
            config::parsed_height(all[0]) == Some(scanned_to),
            list::each(items.take(i - 1), line_fn()) == Ok::<Seq<OwnedView>, ()>(
                list::views(outputs@),
            ),
        decreases lines.len() - i,
    {
        proof {
            assert(items[i - 1] == lines@[i as int]@);
            list::lemma_each_step(items, line_fn(), i - 1);
        }
        match parse_line(&lines[i]) {
            None => {
                proof {
                    list::lemma_each_stops(items, line_fn(), i as int);
                }
                return None;
            },
            Some(o) => {
                let ghost before = list::views(outputs@);
                outputs.push(o);
                assert(list::views(outputs@) =~= before.push(o@));
            },
        }
        i += 1;
    }
    assert(items.take(items.len() as int) =~= items);
    Some(WalletState { outputs, scanned_to })
}

// ---------------------------------------------------------------------------
// Laws
// ---------------------------------------------------------------------------

/// Hexadecimal holds no spaces and no line breaks.
proof fn lemma_hex_is_one_field(b: Seq<u8>)
    ensures
        !bytes::hex_text(b).contains(' '),
        !bytes::hex_text(b).contains('\n'),
{
    let t = bytes::hex_text(b);
    assert forall|i: int| 0 <= i < t.len() implies #[trigger] t[i] != ' ' && t[i] != '\n' by {
        assert(0 <= b[i / 2] as int / 16 < 16);
    }
}

/// A decimal holds no spaces and no line breaks.
proof fn lemma_decimal_is_one_field(n: nat)
    ensures
        !text::decimal(n).contains(' '),
        !text::decimal(n).contains('\n'),
{
    text::law_decimal_is_digits(n);
    let t = text::decimal(n);
    assert forall|i: int| 0 <= i < t.len() implies #[trigger] t[i] != ' ' && t[i] != '\n' by {
        assert(text::is_digit(t[i]));
    }
}

/// Two texts without line breaks have none with a space between them.
proof fn lemma_no_break(a: Seq<char>, b: Seq<char>)
    requires
        !a.contains('\n'),
        !b.contains('\n'),
    ensures
        !(a.push(' ') + b).contains('\n'),
{
    let t = a.push(' ') + b;
    if t.contains('\n') {
        let i = choose|i: int| 0 <= i < t.len() && t[i] == '\n';
        if i < a.len() {
            assert(a.contains(a[i]));
        } else if i > a.len() {
            assert(b.contains(b[i - a.len() - 1]));
        }
    }
}

/// The line of an output stands for it.
pub proof fn law_output_reads_back(o: OwnedView)
    requires
        o.tx_pub_key.len() == 32,
        o.key.len() == 32,
    ensures
        line_fn()(output_line(o)) == Ok::<OwnedView, ()>(o),
        !output_line(o).contains('\n'),
{
    let f0 = bytes::hex_text(o.tx_pub_key);
    let f1 = text::decimal(o.index_in_tx as nat);
    let f2 = text::decimal(o.index_on_chain as nat);
    let f3 = bytes::hex_text(o.key);
    let f4 = text::decimal(o.amount as nat);
    let f5 = bytes::hex_text(o.wallet_output);
    lemma_hex_is_one_field(o.tx_pub_key);
    lemma_hex_is_one_field(o.key);
    lemma_hex_is_one_field(o.wallet_output);
    lemma_decimal_is_one_field(o.index_in_tx as nat);
    lemma_decimal_is_one_field(o.index_on_chain as nat);
    lemma_decimal_is_one_field(o.amount as nat);
    let b = f0.push(' ') + f1;
    let c = b.push(' ') + f2;
    let d = c.push(' ') + f3;
    let e = d.push(' ') + f4;
    text::law_only_piece(f0, ' ');
    text::law_last_piece(f0, ' ', f1);
    text::law_last_piece(b, ' ', f2);
    text::law_last_piece(c, ' ', f3);
    text::law_last_piece(d, ' ', f4);
    text::law_last_piece(e, ' ', f5);
    assert(text::pieces(output_line(o), ' ') =~= seq![f0, f1, f2, f3, f4, f5]);
    lemma_no_break(f0, f1);
    lemma_no_break(b, f2);
    lemma_no_break(c, f3);
    lemma_no_break(d, f4);
    lemma_no_break(e, f5);
    bytes::law_hex_reads_back(o.tx_pub_key);
    bytes::law_hex_reads_back(o.key);
    bytes::law_hex_reads_back(o.wallet_output);
    text::law_decimal_reads_back(o.index_in_tx);
    text::law_decimal_reads_back(o.index_on_chain);
    text::law_decimal_reads_back(o.amount);
}

/// The lines of a state are its height and the lines of its outputs.
proof fn lemma_lines(outputs: Seq<OwnedView>, scanned_to: usize)
    requires
        forall|i: int|
            0 <= i < outputs.len() ==> (#[trigger] outputs[i]).tx_pub_key.len() == 32
                && outputs[i].key.len() == 32,
    ensures
        text::pieces(state_lines(outputs, scanned_to), '\n') == seq![
            text::decimal(scanned_to as nat),
        ] + outputs.map_values(|o: OwnedView| output_line(o)),
    decreases outputs.len(),
{
    let height = text::decimal(scanned_to as nat);
    if outputs.len() == 0 {
        lemma_decimal_is_one_field(scanned_to as nat);
        text::law_only_piece(height, '\n');
        assert(seq![height] + outputs.map_values(|o: OwnedView| output_line(o)) =~= seq![height]);
    } else {
        let less = outputs.drop_last();
        let last = outputs.last();
        assert(outputs[outputs.len() - 1] == last);
        assert forall|i: int| 0 <= i < less.len() implies (#[trigger] less[i]).tx_pub_key.len()
            == 32 && less[i].key.len() == 32 by {
            assert(less[i] == outputs[i]);
        }
        lemma_lines(less, scanned_to);
        law_output_reads_back(last);
        text::law_last_piece(state_lines(less, scanned_to), '\n', output_line(last));
        assert((seq![height] + less.map_values(|o: OwnedView| output_line(o))).push(
            output_line(last),
        ) =~= seq![height] + outputs.map_values(|o: OwnedView| output_line(o)));
    }
}

/// The lines of some outputs stand for them.
proof fn lemma_outputs_read_back(outputs: Seq<OwnedView>)
    requires
        forall|i: int|
            0 <= i < outputs.len() ==> (#[trigger] outputs[i]).tx_pub_key.len() == 32
                && outputs[i].key.len() == 32,
    ensures
        list::each(outputs.map_values(|o: OwnedView| output_line(o)), line_fn()) == Ok::<
            Seq<OwnedView>,
            (),
        >(outputs),
    decreases outputs.len(),
{
    let lines = outputs.map_values(|o: OwnedView| output_line(o));
    if outputs.len() == 0 {
        assert(outputs =~= Seq::<OwnedView>::empty());
    } else {
        let less = outputs.drop_last();
        let last = outputs.last();
        assert(outputs[outputs.len() - 1] == last);
        assert forall|i: int| 0 <= i < less.len() implies (#[trigger] less[i]).tx_pub_key.len()
            == 32 && less[i].key.len() == 32 by {
            assert(less[i] == outputs[i]);
        }
        lemma_outputs_read_back(less);
        law_output_reads_back(last);
        assert(lines.drop_last() =~= less.map_values(|o: OwnedView| output_line(o)));
        assert(lines.last() == output_line(last));
        assert(less.push(last) =~= outputs);
    }
}

/// A state that was written reads back: outputs and height.
pub proof fn law_state_reads_back(state: StateView)
    requires
        forall|i: int|
            0 <= i < state.outputs.len() ==> (#[trigger] state.outputs[i]).tx_pub_key.len() == 32
                && state.outputs[i].key.len() == 32,
    ensures
        state_in(stored(state)) == Some(state),
{
    let lines = state_lines(state.outputs, state.scanned_to);
    let height = text::decimal(state.scanned_to as nat);
    let rest = state.outputs.map_values(|o: OwnedView| output_line(o));
    lemma_lines(state.outputs, state.scanned_to);
    text::law_last_piece(lines, '\n', Seq::empty());
    assert(lines.push('\n') + Seq::<char>::empty() =~= stored(state));
    let all = text::pieces(stored(state), '\n');
    assert(all == (seq![height] + rest).push(Seq::<char>::empty()));
    assert(all.last() == Seq::<char>::empty());
    assert(all.subrange(1, all.len() - 1) =~= rest);
    assert(all[0] == height);
    text::law_decimal_reads_back(state.scanned_to as u64);
    lemma_outputs_read_back(state.outputs);
}

} // verus!
