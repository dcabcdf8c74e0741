//! Laws of what the companion is told: arguments, the view key file, and requests.
use vstd::prelude::*;

use crate::bytes;
use crate::config::{self, ArgsFault, ConfigError, Flags};
use crate::http::{self, Method, Route, RouteView};
use crate::text;

verus! {

// ---------------------------------------------------------------------------
// The view key file
// ---------------------------------------------------------------------------

/// A text starts with another.
pub open spec fn starts(s: Seq<char>, prefix: Seq<char>) -> bool {
    prefix.len() <= s.len() && s.take(prefix.len() as int) == prefix
}

/// What counts is the last line with a prefix, without the space around it, and of
/// it all that stands behind the prefix.
pub proof fn law_last_line_counts(lines: Seq<Seq<char>>, prefix: Seq<char>)
    ensures
        match config::last_with_prefix(lines, prefix) {
            Some(v) => exists|i: int|
                0 <= i < lines.len() && text::trimmed(#[trigger] lines[i]) == prefix + v
                    && forall|j: int|
                    i < j < lines.len() ==> !starts(text::trimmed(#[trigger] lines[j]), prefix),
            None => forall|j: int|
                0 <= j < lines.len() ==> !starts(text::trimmed(#[trigger] lines[j]), prefix),
        },
    decreases lines.len(),
{
    if lines.len() > 0 {
        let n = lines.len() - 1;
        let last = text::trimmed(lines[n]);
        assert(lines.last() == lines[n]);
        match text::stripped(last, prefix) {
            Some(v) => {
                assert(last =~= prefix + v);
            },
            None => {
                let less = lines.drop_last();
                law_last_line_counts(less, prefix);
                match config::last_with_prefix(less, prefix) {
                    Some(v) => {
                        let i = choose|i: int|
                            0 <= i < less.len() && text::trimmed(#[trigger] less[i]) == prefix + v
                                && forall|j: int|
                                i < j < less.len() ==> !starts(
                                    text::trimmed(#[trigger] less[j]),
                                    prefix,
                                );
                        assert(lines[i] == less[i]);
                        assert forall|j: int| i < j < lines.len() implies !starts(
                            text::trimmed(#[trigger] lines[j]),
                            prefix,
                        ) by {
                            if j < n {
                                assert(less[j] == lines[j]);
                            }
                        }
                    },
                    None => {
                        assert forall|j: int| 0 <= j < lines.len() implies !starts(
                            text::trimmed(#[trigger] lines[j]),
                            prefix,
                        ) by {
                            if j < n {
                                assert(less[j] == lines[j]);
                            }
                        }
                    },
                }
            },
        }
    }
}

/// The address and the key of a file are those of its lines; a file without one of
/// them, or with a key that is none, is refused.
pub proof fn law_file_says_its_lines(content: Seq<char>, address: Seq<char>, hex: Seq<char>)
    ensures
        ({
            let lines = text::pieces(content, '\n');
            let found = config::config_in(content);
            let a = config::last_with_prefix(lines, "address="@);
            let v = config::last_with_prefix(lines, "view_key="@);
            &&& a is None ==> found == Err::<(Seq<char>, Seq<u8>), ConfigError>(
                ConfigError::NoAddress,
            )
            &&& a is Some && v is None ==> found == Err::<(Seq<char>, Seq<u8>), ConfigError>(
                ConfigError::NoViewKey,
            )
            &&& a == Some(address) && v == Some(hex) ==> match bytes::hex_decoded_text(hex) {
                Ok(key) => if key.len() == 32 {
                    found == Ok::<(Seq<char>, Seq<u8>), ConfigError>((address, key))
                } else {
                    found == Err::<(Seq<char>, Seq<u8>), ConfigError>(ConfigError::ViewKeyLength)
                },
                Err(e) => found == Err::<(Seq<char>, Seq<u8>), ConfigError>(
                    ConfigError::ViewKeyHex(e),
                ),
            }
        }),
{
}

// ---------------------------------------------------------------------------
// Arguments
// ---------------------------------------------------------------------------

proof fn lemma_flag_names()
    ensures
        "--view-key"@ != "--rpc"@,
        "--view-key"@ != "--from"@,
        "--view-key"@ != "--port"@,
        "--rpc"@ != "--from"@,
        "--rpc"@ != "--port"@,
        "--from"@ != "--port"@,
{
    reveal_strlit("--view-key");
    reveal_strlit("--rpc");
    reveal_strlit("--from");
    reveal_strlit("--port");
    assert("--view-key"@.len() == 10 && "--rpc"@.len() == 5);
    assert("--from"@.len() == 6 && "--port"@.len() == 6);
    assert("--from"@[2] != "--port"@[2]);
}

/// A flag says what its value says, and nothing of what the others say.
pub proof fn law_flags_set_their_own(flags: Flags, v: Seq<char>, height: usize, port: u16)
    ensures
        config::with_flag(flags, "--view-key"@, Some(v)) == Some(
            Flags {
                view_key_file: Some(v),
                rpc_url: flags.rpc_url,
                from: flags.from,
                port: flags.port,
            },
        ),
        config::with_flag(flags, "--rpc"@, Some(v)) == Some(
            Flags {
                view_key_file: flags.view_key_file,
                rpc_url: Some(v),
                from: flags.from,
                port: flags.port,
            },
        ),
        config::with_flag(flags, "--from"@, Some(text::decimal(height as nat))) == Some(
            Flags {
                view_key_file: flags.view_key_file,
                rpc_url: flags.rpc_url,
                from: Some(height),
                port: flags.port,
            },
        ),
        config::with_flag(flags, "--port"@, Some(text::decimal(port as nat))) == Some(
            Flags {
                view_key_file: flags.view_key_file,
                rpc_url: flags.rpc_url,
                from: flags.from,
                port,
            },
        ),
        config::with_flag(flags, v, None) matches Some(f) ==> f.port == flags.port,
{
    lemma_flag_names();
    text::law_decimal_reads_back(height as u64);
    text::law_decimal_reads_back(port as u64);
}

/// A height or a port that is no number is not taken: the height counts as none
/// given, and the port stays.
pub proof fn law_bad_numbers_do_not_count(flags: Flags, v: Seq<char>)
    requires
        text::parsed_u64(v) is None,
    ensures
        config::with_flag(flags, "--from"@, Some(v)) matches Some(f) && f.from is None && f.port
            == flags.port,
        config::with_flag(flags, "--port"@, Some(v)) == Some(flags),
{
    lemma_flag_names();
}

/// The companion does what it is told: the file, the daemon, the height and the
/// port are those given, and without the last two it is told no height and the
/// usual port. Of a flag that is given twice the last counts.
pub proof fn law_arguments_are_followed(
    file: Seq<char>,
    url: Seq<char>,
    other: Seq<char>,
    height: usize,
    port: u16,
)
    ensures
        config::options_in(
            seq![
                "serve"@,
                "--view-key"@,
                file,
                "--rpc"@,
                url,
                "--from"@,
                text::decimal(height as nat),
                "--port"@,
                text::decimal(port as nat),
            ],
        ) == Ok::<(Seq<char>, Seq<char>, Option<usize>, u16), ArgsFault>(
            (file, url, Some(height), port),
        ),
        config::options_in(seq!["serve"@, "--rpc"@, url, "--view-key"@, file]) == Ok::<
            (Seq<char>, Seq<char>, Option<usize>, u16),
            ArgsFault,
        >((file, url, None, 8787)),
        config::options_in(
            seq!["serve"@, "--view-key"@, other, "--rpc"@, url, "--view-key"@, file],
        ) == Ok::<(Seq<char>, Seq<char>, Option<usize>, u16), ArgsFault>((file, url, None, 8787)),
        config::options_in(
            seq!["serve"@, "--rpc"@, other, "--view-key"@, file, "--rpc"@, url],
        ) == Ok::<(Seq<char>, Seq<char>, Option<usize>, u16), ArgsFault>((file, url, None, 8787)),
        config::options_in(seq!["serve"@, "--view-key"@, file]) == Err::<
            (Seq<char>, Seq<char>, Option<usize>, u16),
            ArgsFault,
        >(ArgsFault::NoRpc),
        config::options_in(seq!["serve"@, "--rpc"@, url]) == Err::<
            (Seq<char>, Seq<char>, Option<usize>, u16),
            ArgsFault,
        >(ArgsFault::NoViewKey),
{
    let none = config::no_flags();
    let h = text::decimal(height as nat);
    let p = text::decimal(port as nat);
    let vk = "--view-key"@;
    let rpc = "--rpc"@;
    let f1 = Flags { view_key_file: Some(file), ..none };
    let f2 = Flags { rpc_url: Some(url), ..f1 };
    let f3 = Flags { from: Some(height), ..f2 };
    let f4 = Flags { port, ..f3 };
    let g1 = Flags { rpc_url: Some(url), ..none };
    let k1 = Flags { view_key_file: Some(other), ..none };
    let k2 = Flags { rpc_url: Some(url), ..k1 };
    let m1 = Flags { rpc_url: Some(other), ..none };
    let m2 = Flags { view_key_file: Some(file), ..m1 };
    law_flags_set_their_own(none, file, height, port);
    law_flags_set_their_own(none, url, height, port);
    law_flags_set_their_own(none, other, height, port);
    law_flags_set_their_own(f1, url, height, port);
    law_flags_set_their_own(f2, url, height, port);
    law_flags_set_their_own(f3, url, height, port);
    law_flags_set_their_own(g1, file, height, port);
    law_flags_set_their_own(k1, url, height, port);
    law_flags_set_their_own(k2, file, height, port);
    law_flags_set_their_own(m1, file, height, port);
    law_flags_set_their_own(m2, url, height, port);
    let empty = Seq::<Seq<char>>::empty();
    lemma_flags_end(f4);
    lemma_flags_end(f2);
    lemma_flags_end(f1);
    lemma_flags_end(g1);
    // The first.
    lemma_flag_first(f3, "--port"@, p, empty, f4);
    lemma_flag_first(f2, "--from"@, h, seq!["--port"@, p] + empty, f3);
    lemma_flag_first(f1, rpc, url, seq!["--from"@, h] + (seq!["--port"@, p] + empty), f2);
    let a2 = seq![rpc, url] + (seq!["--from"@, h] + (seq!["--port"@, p] + empty));
    lemma_flag_first(none, vk, file, a2, f1);
    let first = seq!["serve"@, vk, file, rpc, url, "--from"@, h, "--port"@, p];
    assert(first.skip(1) =~= seq![vk, file] + a2);
    // The second.
    lemma_flag_first(g1, vk, file, empty, f2);
    lemma_flag_first(none, rpc, url, seq![vk, file] + empty, g1);
    let second = seq!["serve"@, rpc, url, vk, file];
    assert(second.skip(1) =~= seq![rpc, url] + (seq![vk, file] + empty));
    // The third.
    lemma_flag_first(k2, vk, file, empty, f2);
    lemma_flag_first(k1, rpc, url, seq![vk, file] + empty, k2);
    lemma_flag_first(none, vk, other, seq![rpc, url] + (seq![vk, file] + empty), k1);
    let third = seq!["serve"@, vk, other, rpc, url, vk, file];
    assert(third.skip(1) =~= seq![vk, other] + (seq![rpc, url] + (seq![vk, file] + empty)));
    // The fourth.
    lemma_flag_first(m2, rpc, url, empty, f2);
    lemma_flag_first(m1, vk, file, seq![rpc, url] + empty, m2);
    lemma_flag_first(none, rpc, other, seq![vk, file] + (seq![rpc, url] + empty), m1);
    let fourth = seq!["serve"@, rpc, other, vk, file, rpc, url];
    assert(fourth.skip(1) =~= seq![rpc, other] + (seq![vk, file] + (seq![rpc, url] + empty)));
    // The last two.
    lemma_flag_first(none, vk, file, empty, f1);
    lemma_flag_first(none, rpc, url, empty, g1);
    assert(seq!["serve"@, vk, file].skip(1) =~= seq![vk, file] + empty);
    assert(seq!["serve"@, rpc, url].skip(1) =~= seq![rpc, url] + empty);
}

proof fn lemma_flags_end(flags: Flags)
    ensures
        config::flags_in(Seq::<Seq<char>>::empty(), flags) == Ok::<Flags, Seq<char>>(flags),
{
}

proof fn lemma_flag_first(
    flags: Flags,
    flag: Seq<char>,
    value: Seq<char>,
    rest: Seq<Seq<char>>,
    next: Flags,
)
    requires
        config::with_flag(flags, flag, Some(value)) == Some(next),
    ensures
        config::flags_in(seq![flag, value] + rest, flags) == config::flags_in(rest, next),
{
    let all = seq![flag, value] + rest;
    assert(all[0] == flag && all[1] == value);
    assert(all.skip(2) =~= rest);
}

/// Every flag counts, however many there are: what the first says, the rest go on
/// from. A flag at the end has no value, and takes back what was said but for the port.
pub proof fn law_every_flag_counts(
    flags: Flags,
    flag: Seq<char>,
    value: Seq<char>,
    rest: Seq<Seq<char>>,
)
    ensures
        match config::with_flag(flags, flag, Some(value)) {
            Some(next) => config::flags_in(seq![flag, value] + rest, flags) == config::flags_in(
                rest,
                next,
            ),
            None => config::flags_in(seq![flag, value] + rest, flags) == Err::<Flags, Seq<char>>(
                flag,
            ),
        },
        config::flags_in(seq!["--view-key"@], flags) matches Ok(f) && f.view_key_file is None
            && f.rpc_url == flags.rpc_url && f.from == flags.from && f.port == flags.port,
        config::flags_in(seq!["--rpc"@], flags) matches Ok(f) && f.rpc_url is None
            && f.view_key_file == flags.view_key_file && f.from == flags.from && f.port
            == flags.port,
        config::flags_in(seq!["--from"@], flags) matches Ok(f) && f.from is None && f.view_key_file
            == flags.view_key_file && f.rpc_url == flags.rpc_url && f.port == flags.port,
        config::flags_in(seq!["--port"@], flags) == Ok::<Flags, Seq<char>>(flags),
        config::flags_in(Seq::<Seq<char>>::empty(), flags) == Ok::<Flags, Seq<char>>(flags),
{
    lemma_flag_names();
    reveal_with_fuel(config::flags_in, 2);
    let all = seq![flag, value] + rest;
    assert(all[0] == flag && all[1] == value);
    assert(all.skip(2) =~= rest);
}

/// A port is taken where it is one, and a height where it is one.
pub proof fn law_ports_and_heights_fit(n: u64)
    ensures
        n <= 65535 ==> config::parsed_port(text::decimal(n as nat)) == Some(n as u16),
        n > 65535 ==> config::parsed_port(text::decimal(n as nat)) is None,
        n <= usize::MAX ==> config::parsed_height(text::decimal(n as nat)) == Some(n as usize),
        n > usize::MAX ==> config::parsed_height(text::decimal(n as nat)) is None,
{
    text::law_decimal_reads_back(n);
}

/// What is not known is refused by its name: another command, or the first other flag.
pub proof fn law_unknown_arguments_are_refused(word: Seq<char>, rest: Seq<Seq<char>>)
    ensures
        word != "serve"@ ==> config::options_in(seq![word] + rest) == Err::<
            (Seq<char>, Seq<char>, Option<usize>, u16),
            ArgsFault,
        >(ArgsFault::UnknownCommand(word)),
        word != "--view-key"@ && word != "--rpc"@ && word != "--from"@ && word != "--port"@
            ==> config::options_in(seq!["serve"@, word] + rest) == Err::<
            (Seq<char>, Seq<char>, Option<usize>, u16),
            ArgsFault,
        >(ArgsFault::UnknownFlag(word)),
        config::options_in(Seq::<Seq<char>>::empty()) == Err::<
            (Seq<char>, Seq<char>, Option<usize>, u16),
            ArgsFault,
        >(ArgsFault::Usage),
{
    assert((seq![word] + rest)[0] == word);
    let all = seq!["serve"@, word] + rest;
    assert(all[0] == "serve"@);
    assert(all.skip(1)[0] == word);
}

// ---------------------------------------------------------------------------
// Requests
// ---------------------------------------------------------------------------

/// What a route says, its parts say.
pub proof fn law_route_says_its_parts(r: Route)
    ensures
        r matches Route::Send { to, amount } ==> r@ == (RouteView::Send { to: to@, amount }),
        r is Sync <==> r@ is Sync,
        r is Broadcast <==> r@ is Broadcast,
        r is NotFound <==> r@ is NotFound,
{
}

/// The path of a URL without a query is the URL, and with one it is what stands
/// before the first question mark.
proof fn lemma_path(path: Seq<char>, query: Seq<char>)
    requires
        !path.contains('?'),
        !query.contains('?'),
    ensures
        text::pieces(path, '?')[0] == path,
        text::pieces(path, '?').len() == 1,
        text::pieces(path.push('?') + query, '?')[0] == path,
        text::pieces(path.push('?') + query, '?')[1] == query,
        text::pieces(path.push('?') + query, '?').len() == 2,
{
    text::law_only_piece(path, '?');
    text::law_last_piece(path, '?', query);
}

/// Each path is served by its method, whatever the query, and no other path by any.
pub proof fn law_paths_are_served(path: Seq<char>, query: Seq<char>)
    requires
        !path.contains('?'),
        !query.contains('?'),
    ensures
        path == "/"@ ==> http::route_of(Method::Get, path) is Sync && http::route_of(
            Method::Get,
            path.push('?') + query,
        ) is Sync,
        path == "/send"@ ==> http::route_of(Method::Get, path) is Send && http::route_of(
            Method::Get,
            path.push('?') + query,
        ) is Send,
        path == "/broadcast"@ ==> http::route_of(Method::Post, path) is Broadcast
            && http::route_of(Method::Post, path.push('?') + query) is Broadcast,
        path != "/"@ && path != "/send"@ ==> http::route_of(Method::Get, path) is NotFound
            && http::route_of(Method::Get, path.push('?') + query) is NotFound,
        path != "/broadcast"@ ==> http::route_of(Method::Post, path) is NotFound && http::route_of(
            Method::Post,
            path.push('?') + query,
        ) is NotFound,
{
    reveal_strlit("/");
    reveal_strlit("/send");
    assert("/"@.len() != "/send"@.len());
    lemma_path(path, query);
}

/// Of the fields of a query the last with a name counts, and of it all that stands
/// behind its first equals sign.
pub proof fn law_last_field_counts(fields: Seq<Seq<char>>, name: Seq<char>, value: Seq<char>)
    requires
        !name.contains('='),
    ensures
        http::last_value(fields.push(name.push('=') + value), name) == Some(value),
        forall|other: Seq<char>|
            other != name ==> #[trigger] http::last_value(
                fields.push(name.push('=') + value),
                other,
            ) == http::last_value(fields, other),
        http::last_value(Seq::<Seq<char>>::empty(), name) is None,
{
    let field = name.push('=') + value;
    crate::laws::words_and_numbers::law_cut_is_at_the_first(field, '=');
    assert(field[name.len() as int] == '=');
    assert(field.contains('='));
    let before = text::text_before(field, '=');
    let behind = text::text_behind(field, '=');
    assert(field == before.push('=') + behind);
    if before.len() < name.len() {
        assert(field[before.len() as int] == '=');
        assert(name[before.len() as int] == '=');
        assert(name.contains(name[before.len() as int]));
    } else if before.len() > name.len() {
        assert(before[name.len() as int] == field[name.len() as int]);
        assert(before.contains(before[name.len() as int]));
    }
    assert(before =~= name) by {
        assert forall|i: int| 0 <= i < name.len() implies before[i] == name[i] by {
            assert(field[i] == name[i]);
        }
    }
    assert(behind =~= value) by {
        assert forall|i: int| 0 <= i < value.len() implies behind[i] == value[i] by {
            assert(field[name.len() + 1 + i] == value[i]);
        }
    }
    assert(fields.push(field).drop_last() =~= fields);
    assert(fields.push(field).last() == field);
}

/// A payment is to the address in `a` and of the amount in `p`; without an address
/// it is to none, and without an amount that is a number it is of nothing.
pub proof fn law_payment_is_what_the_query_says(
    fields: Seq<Seq<char>>,
    to: Seq<char>,
    amount: u64,
)
    ensures
        http::last_value(fields, "a"@) == Some(to) && http::last_value(fields, "p"@) == Some(
            text::decimal(amount as nat),
        ) ==> http::payment_in(fields) == (RouteView::Send { to, amount }),
        http::last_value(fields, "a"@) is None ==> (http::payment_in(fields) matches RouteView::Send {
            to: t,
            amount: _,
        } && t.len() == 0),
        (http::last_value(fields, "p"@) is None || text::parsed_u64(
            http::last_value(fields, "p"@)->0,
        ) is None) ==> (http::payment_in(fields) matches RouteView::Send { to: _, amount: n } && n
            == 0),
{
    text::law_decimal_reads_back(amount);
}

/// The fields of a query stand between its ampersands.
pub proof fn law_query_fields(path: Seq<char>, query: Seq<char>)
    requires
        !path.contains('?'),
        !query.contains('?'),
    ensures
        http::query_fields(path.push('?') + query) == text::pieces(query, '&'),
        http::query_fields(path) == seq![Seq::<char>::empty()],
{
    lemma_path(path, query);
    text::law_only_piece(Seq::<char>::empty(), '&');
}

} // verus!
