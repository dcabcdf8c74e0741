//! What the companion is started with: its arguments and the view key file.
use vstd::prelude::*;

use crate::bytes::{self, bytes_32, decode_hex, HexError};
use crate::text::{self, chars_of, parse_u64, same_text, split, string_of, strip_prefix, trim};

verus! {

// ---------------------------------------------------------------------------
// The view key file
// ---------------------------------------------------------------------------

/// The address and the view key that the device exports.
pub struct WalletConfig {
    pub address: String,
    pub view_key: [u8; 32],
}

/// Why a file holds no address and view key.
#[derive(Clone, Copy, Debug, PartialEq, Eq, Structural)]
pub enum ConfigError {
    /// No line gives an address.
    NoAddress,
    /// No line gives a view key.
    NoViewKey,
    /// The view key is no hexadecimal.
    ViewKeyHex(HexError),
    /// The view key does not have 32 bytes.
    ViewKeyLength,
}

/// What the last line with a prefix says behind it. Space around a line does not count.
pub open spec fn last_with_prefix(lines: Seq<Seq<char>>, prefix: Seq<char>) -> Option<Seq<char>>
    decreases lines.len(),
{
    if lines.len() == 0 {
        None
    } else {
        match text::stripped(text::trimmed(lines.last()), prefix) {
            Some(v) => Some(v),
            None => last_with_prefix(lines.drop_last(), prefix),
        }
    }
}

/// The address and the view key in the text of a file.
pub open spec fn config_in(content: Seq<char>) -> Result<(Seq<char>, Seq<u8>), ConfigError> {
    let lines = text::pieces(content, '\n');
    match last_with_prefix(lines, "address="@) {
        None => Err(ConfigError::NoAddress),
        Some(address) => match last_with_prefix(lines, "view_key="@) {
            None => Err(ConfigError::NoViewKey),
            Some(hex) => match bytes::hex_decoded_text(hex) {
                Err(e) => Err(ConfigError::ViewKeyHex(e)),
                Ok(key) => if key.len() == 32 {
                    Ok((address, key))
                } else {
                    Err(ConfigError::ViewKeyLength)
                },
            },
        },
    }
}

/// Finds what the last line with a prefix says behind it.
fn find_last(lines: &Vec<Vec<char>>, prefix: &str) -> (r: Option<Vec<char>>)
    ensures
        match r {
            Some(v) => last_with_prefix(text::texts(lines@), prefix@) == Some(v@),
            None => last_with_prefix(text::texts(lines@), prefix@) is None,
        },
{
    let ghost all = text::texts(lines@);
    let mut i: usize = lines.len();
    assert(all.take(i as int) =~= all);
    while i > 0
        invariant
            i <= lines.len(),
            all == text::texts(lines@),
            last_with_prefix(all, prefix@) == last_with_prefix(all.take(i as int), prefix@),
        decreases i,
    {
        proof {
            assert(all.take(i as int).last() == lines@[i - 1]@);
            assert(all.take(i as int).drop_last() =~= all.take(i - 1));
        }
        let line: Vec<char> = trim(&lines[i - 1]);
        match strip_prefix(&line, prefix) {
            Some(v) => {
                return Some(v);
            },
            None => {},
        }
        i -= 1;
    }
    None
}

impl WalletConfig {
    /// The address without the space around it.
    pub fn trimmed_address(&self) -> (r: String)
        ensures
            r@ == text::trimmed(self.address@),
    {
        let whole: Vec<char> = chars_of(self.address.as_str());
        string_of(&trim(&whole))
    }
}

/// Reads the text of a view key file: `address=..` and `view_key=..` on lines of their own.
pub fn parse_view_key_file(content: &str) -> (r: Result<WalletConfig, ConfigError>)
    ensures
        match r {
            Ok(c) => config_in(content@) == Ok::<(Seq<char>, Seq<u8>), ConfigError>(
                (c.address@, c.view_key@),
            ),
            Err(e) => config_in(content@) == Err::<(Seq<char>, Seq<u8>), ConfigError>(e),
        },
{
    let whole: Vec<char> = chars_of(content);
    let lines: Vec<Vec<char>> = split(&whole, '\n');
    let address: Vec<char> = match find_last(&lines, "address=") {
        None => {
            return Err(ConfigError::NoAddress);
        },
        Some(v) => v,
    };
    let view_key: Vec<char> = match find_last(&lines, "view_key=") {
        None => {
            return Err(ConfigError::NoViewKey);
        },
        Some(v) => v,
    };
    match decode_hex(string_of(&view_key).as_str()) {
        Err(e) => Err(ConfigError::ViewKeyHex(e)),
        Ok(b) => match bytes_32(b.as_slice()) {
            None => Err(ConfigError::ViewKeyLength),
            Some(view_key) => Ok(WalletConfig { address: string_of(&address), view_key }),
        },
    }
}

// ---------------------------------------------------------------------------
// Arguments
// ---------------------------------------------------------------------------

/// The port that is listened on unless another is given.
pub const DEFAULT_PORT: u16 = 8787;

/// What the companion was told to do.
pub struct Options {
    pub view_key_file: String,
    pub rpc_url: String,
    /// The height to start scanning from.
    pub from: Option<usize>,
    pub port: u16,
}

/// Why arguments cannot be followed.
#[derive(Debug)]
pub enum ArgsError {
    /// There is no command.
    Usage,
    UnknownCommand(String),
    UnknownFlag(String),
    NoViewKey,
    NoRpc,
}

/// What such an error says.
pub enum ArgsFault {
    Usage,
    UnknownCommand(Seq<char>),
    UnknownFlag(Seq<char>),
    NoViewKey,
    NoRpc,
}

impl View for ArgsError {
    type V = ArgsFault;

    open spec fn view(&self) -> ArgsFault {
        match *self {
            ArgsError::Usage => ArgsFault::Usage,
            ArgsError::UnknownCommand(s) => ArgsFault::UnknownCommand(s@),
            ArgsError::UnknownFlag(s) => ArgsFault::UnknownFlag(s@),
            ArgsError::NoViewKey => ArgsFault::NoViewKey,
            ArgsError::NoRpc => ArgsFault::NoRpc,
        }
    }
}

/// What some flags say.
#[verifier::ext_equal]
pub struct Flags {
    pub view_key_file: Option<Seq<char>>,
    pub rpc_url: Option<Seq<char>>,
    pub from: Option<usize>,
    pub port: u16,
}

/// What no flags say.
pub open spec fn no_flags() -> Flags {
    Flags { view_key_file: None, rpc_url: None, from: None, port: DEFAULT_PORT }
}

/// The height that a text denotes.
pub open spec fn parsed_height(s: Seq<char>) -> Option<usize> {
    match text::parsed_u64(s) {
        Some(n) => if n <= usize::MAX {
            Some(n as usize)
        } else {
            None
        },
        None => None,
    }
}

/// The port that a text denotes.
pub open spec fn parsed_port(s: Seq<char>) -> Option<u16> {
    match text::parsed_u64(s) {
        Some(n) => if n <= u16::MAX {
            Some(n as u16)
        } else {
            None
        },
        None => None,
    }
}

/// What one more flag says, with the value behind it, if there is one; `None` for
/// a flag that is not known. A flag without a value takes back what was said. A
/// height that is no number counts as none, and a port that is no number does not
/// count.
pub open spec fn with_flag(flags: Flags, flag: Seq<char>, value: Option<Seq<char>>) -> Option<
    Flags,
> {
    if flag == "--view-key"@ {
        Some(Flags { view_key_file: value, ..flags })
    } else if flag == "--rpc"@ {
        Some(Flags { rpc_url: value, ..flags })
    } else if flag == "--from"@ {
        Some(
            Flags {
                from: match value {
                    Some(v) => parsed_height(v),
                    None => None,
                },
                ..flags
            },
        )
    } else if flag == "--port"@ {
        Some(
            Flags {
                port: match value {
                    Some(v) => match parsed_port(v) {
                        Some(p) => p,
                        None => flags.port,
                    },
                    None => flags.port,
                },
                ..flags
            },
        )
    } else {
        None
    }
}

/// What some arguments say, each flag with the value behind it, on top of other
/// flags; the fault is the first flag that is not known.
pub open spec fn flags_in(args: Seq<Seq<char>>, flags: Flags) -> Result<Flags, Seq<char>>
    decreases args.len(),
{
    if args.len() == 0 {
        Ok(flags)
    } else {
        let value = if args.len() > 1 {
            Some(args[1])
        } else {
            None
        };
        match with_flag(flags, args[0], value) {
            None => Err(args[0]),
            Some(next) => flags_in(
                if args.len() > 1 {
                    args.skip(2)
                } else {
                    Seq::empty()
                },
                next,
            ),
        }
    }
}

/// What the arguments say, the command first.
pub open spec fn options_in(args: Seq<Seq<char>>) -> Result<
    (Seq<char>, Seq<char>, Option<usize>, u16),
    ArgsFault,
> {
    if args.len() == 0 {
        Err(ArgsFault::Usage)
    } else if args[0] != "serve"@ {
        Err(ArgsFault::UnknownCommand(args[0]))
    } else {
        match flags_in(args.skip(1), no_flags()) {
            Err(flag) => Err(ArgsFault::UnknownFlag(flag)),
            Ok(flags) => match (flags.view_key_file, flags.rpc_url) {
                (None, _) => Err(ArgsFault::NoViewKey),
                (Some(_), None) => Err(ArgsFault::NoRpc),
                (Some(file), Some(url)) => Ok((file, url, flags.from, flags.port)),
            },
        }
    }
}

/// The texts of some strings.
pub open spec fn args_text(args: Seq<String>) -> Seq<Seq<char>> {
    args.map_values(|s: String| s@)
}

/// The text of an optional string.
pub open spec fn opt_text(s: Option<String>) -> Option<Seq<char>> {
    match s {
        Some(t) => Some(t@),
        None => None,
    }
}

/// Reads a height.
pub(crate) fn parse_height(s: &str) -> (r: Option<usize>)
    ensures
        r == parsed_height(s@),
{
    let whole: Vec<char> = chars_of(s);
    match parse_u64(&whole) {
        Some(n) => {
            if n <= usize::MAX as u64 {
                Some(n as usize)
            } else {
                None
            }
        },
        None => None,
    }
}

/// Reads a port.
fn parse_port(s: &str) -> (r: Option<u16>)
    ensures
        r == parsed_port(s@),
{
    let whole: Vec<char> = chars_of(s);
    match parse_u64(&whole) {
        Some(n) => {
            if n <= u16::MAX as u64 {
                Some(n as u16)
            } else {
                None
            }
        },
        None => None,
    }
}

/// Reads the arguments, the name of the program not among them.
pub fn parse_args(args: &Vec<String>) -> (r: Result<Options, ArgsError>)
    ensures
        match r {
            Ok(o) => options_in(args_text(args@)) == Ok::<
                (Seq<char>, Seq<char>, Option<usize>, u16),
                ArgsFault,
            >((o.view_key_file@, o.rpc_url@, o.from, o.port)),
            Err(e) => options_in(args_text(args@)) == Err::<
                (Seq<char>, Seq<char>, Option<usize>, u16),
                ArgsFault,
            >(e@),
        },
{
    let ghost all = args_text(args@);
    if args.len() == 0 {
        return Err(ArgsError::Usage);
    }
    assert(all[0] == args@[0]@);
    if !same_text(args[0].as_str(), "serve") {
        return Err(ArgsError::UnknownCommand(args[0].clone()));
    }
    let mut view_key_file: Option<String> = None;
    let mut rpc_url: Option<String> = None;
    let mut from: Option<usize> = None;
    let mut port: u16 = DEFAULT_PORT;
    let mut i: usize = 1;
    while i < args.len()
        invariant
            1 <= i <= args.len(),
            all == args_text(args@),
            flags_in(all.skip(1), no_flags()) == flags_in(
                all.skip(i as int),
                Flags {
                    view_key_file: opt_text(view_key_file),
                    rpc_url: opt_text(rpc_url),
                    from,
                    port,
                },
            ),
            all.len() > 0,
            all[0] == "serve"@,
        decreases args.len() - i,
    {
        let flag: &str = args[i].as_str();
        let value: Option<String> = if i + 1 < args.len() {
            Some(args[i + 1].clone())
        } else {
            None
        };
        proof {
            let rest = all.skip(i as int);
            assert(rest[0] == args@[i as int]@);
            if rest.len() > 1 {
                assert(rest[1] == args@[i + 1]@);
                assert(rest.skip(2) =~= all.skip(i + 2));
            } else {
                assert(all.skip(all.len() as int) =~= Seq::<Seq<char>>::empty());
            }
        }
        if same_text(flag, "--view-key") {
            view_key_file = value;
        } else if same_text(flag, "--rpc") {
            rpc_url = value;
        } else if same_text(flag, "--from") {
            from = match &value {
                Some(v) => parse_height(v.as_str()),
                None => None,
            };
        } else if same_text(flag, "--port") {
            port = match &value {
                Some(v) => match parse_port(v.as_str()) {
                    Some(p) => p,
                    None => port,
                },
                None => port,
            };
        } else {
            return Err(ArgsError::UnknownFlag(args[i].clone()));
        }
        i = if i + 1 < args.len() {
            i + 2
        } else {
            i + 1
        };
    }
    assert(all.skip(args.len() as int) =~= Seq::<Seq<char>>::empty());
    match view_key_file {
        None => Err(ArgsError::NoViewKey),
        Some(view_key_file) => match rpc_url {
            None => Err(ArgsError::NoRpc),
            Some(rpc_url) => Ok(Options { view_key_file, rpc_url, from, port }),
        },
    }
}

/// The height to start scanning from: the given one, or the tip of the chain.
pub fn start_height(from: Option<usize>, latest: usize) -> (r: usize)
    ensures
        r == match from {
            Some(h) => h,
            None => latest,
        },
{
    match from {
        Some(h) => h,
        None => latest,
    }
}

// ---------------------------------------------------------------------------
// Laws
// ---------------------------------------------------------------------------

/// A file with an address and a view key, each on its line, says just these: any
/// address on one line that does not end in white space, and any key of 32 bytes.
pub proof fn law_exported_file_reads_back(address: Seq<char>, key: Seq<u8>)
    requires
        !address.contains('\n'),
        address.len() > 0 ==> !text::white_space(address.last()),
        key.len() == 32,
    ensures
        config_in(
            ("address="@ + address).push('\n') + ("view_key="@ + bytes::hex_text(key)),
        ) == Ok::<(Seq<char>, Seq<u8>), ConfigError>((address, key)),
{
    reveal_strlit("address=");
    reveal_strlit("view_key=");
    let a = "address="@;
    let v = "view_key="@;
    let hex = bytes::hex_text(key);
    let first = a + address;
    let second = v + hex;
    assert(!first.contains('\n')) by {
        if first.contains('\n') {
            let i = choose|i: int| 0 <= i < first.len() && first[i] == '\n';
            if i >= a.len() {
                assert(first[i] == address[i - a.len()]);
                assert(address.contains(address[i - a.len()]));
            }
        }
    }
    assert(!second.contains('\n')) by {
        if second.contains('\n') {
            let i = choose|i: int| 0 <= i < second.len() && second[i] == '\n';
            if i >= v.len() {
                assert(second[i] == hex[i - v.len()]);
                assert(0 <= key[(i - v.len()) / 2] as int % 16 < 16);
            }
        }
    }
    text::law_only_piece(first, '\n');
    text::law_last_piece(first, '\n', second);
    let lines = text::pieces(first.push('\n') + second, '\n');
    assert(lines =~= seq![first, second]);
    assert(lines.drop_last() =~= seq![first]);
    assert(first[0] == 'a' && second[0] == 'v');
    if address.len() > 0 {
        assert(first.last() == address.last());
    } else {
        assert(first.last() == '=');
    }
    assert(second.last() == hex[63]);
    assert(0 <= key[31] as int % 16 < 16);
    text::law_trim_keeps(first);
    text::law_trim_keeps(second);
    assert(first.take(a.len() as int) =~= a);
    assert(first.skip(a.len() as int) =~= address);
    assert(second.take(v.len() as int) =~= v);
    assert(second.skip(v.len() as int) =~= hex);
    assert(second.take(a.len() as int)[0] == 'v');
    assert(text::stripped(second, a) is None);
    bytes::law_hex_reads_back(key);
    reveal_with_fuel(last_with_prefix, 3);
}

} // verus!
