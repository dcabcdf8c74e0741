//! Which request asks for what.
use vstd::prelude::*;

use crate::text::{self, chars_of, cut, parse_u64, same_text, split, string_of};

verus! {

/// The method of a request.
#[derive(Clone, Copy, Debug, PartialEq, Eq, Structural)]
pub enum Method {
    Get,
    Post,
    Other,
}

/// What a request asks for.
#[derive(Debug)]
pub enum Route {
    /// The sync page.
    Sync,
    /// An unsigned transaction that pays an amount to an address.
    Send { to: String, amount: u64 },
    /// Publishing the signed transaction in the body.
    Broadcast,
    /// Nothing that is served.
    NotFound,
}

/// What a route says.
pub enum RouteView {
    Sync,
    Send { to: Seq<char>, amount: u64 },
    Broadcast,
    NotFound,
}

impl View for Route {
    type V = RouteView;

    open spec fn view(&self) -> RouteView {
        match *self {
            Route::Sync => RouteView::Sync,
            Route::Send { to, amount } => RouteView::Send { to: to@, amount },
            Route::Broadcast => RouteView::Broadcast,
            Route::NotFound => RouteView::NotFound,
        }
    }
}

/// The value of the last field with a name, of fields in the form `name=value`.
pub open spec fn last_value(fields: Seq<Seq<char>>, name: Seq<char>) -> Option<Seq<char>>
    decreases fields.len(),
{
    if fields.len() == 0 {
        None
    } else if text::text_before(fields.last(), '=') == name {
        Some(text::text_behind(fields.last(), '='))
    } else {
        last_value(fields.drop_last(), name)
    }
}

/// The fields of the query of a URL: of what stands between the first question
/// mark and the next.
pub open spec fn query_fields(url: Seq<char>) -> Seq<Seq<char>> {
    let parts = text::pieces(url, '?');
    text::pieces(
        if parts.len() > 1 {
            parts[1]
        } else {
            Seq::empty()
        },
        '&',
    )
}

/// The payment that a query asks for: the address in `a` and the amount in `p`,
/// which is zero where there is none that can be read.
pub open spec fn payment_in(fields: Seq<Seq<char>>) -> RouteView {
    RouteView::Send {
        to: match last_value(fields, "a"@) {
            Some(v) => v,
            None => Seq::empty(),
        },
        amount: match last_value(fields, "p"@) {
            Some(v) => match text::parsed_u64(v) {
                Some(n) => n,
                None => 0,
            },
            None => 0,
        },
    }
}

/// What a method and a URL ask for.
pub open spec fn route_of(method: Method, url: Seq<char>) -> RouteView {
    let path = text::pieces(url, '?')[0];
    match method {
        Method::Get => if path == "/"@ {
            RouteView::Sync
        } else if path == "/send"@ {
            payment_in(query_fields(url))
        } else {
            RouteView::NotFound
        },
        Method::Post => if path == "/broadcast"@ {
            RouteView::Broadcast
        } else {
            RouteView::NotFound
        },
        Method::Other => RouteView::NotFound,
    }
}

/// Finds the value of the last field with a name.
fn find_value(fields: &Vec<Vec<char>>, name: &str) -> (r: Option<Vec<char>>)
    ensures
        match r {
            Some(v) => last_value(text::texts(fields@), name@) == Some(v@),
            None => last_value(text::texts(fields@), name@) is None,
        },
{
    let ghost all = text::texts(fields@);
    let mut i: usize = fields.len();
    assert(all.take(i as int) =~= all);
    while i > 0
        invariant
            i <= fields.len(),
            all == text::texts(fields@),
            last_value(all, name@) == last_value(all.take(i as int), name@),
        decreases i,
    {
        proof {
            assert(all.take(i as int).last() == fields@[i - 1]@);
            assert(all.take(i as int).drop_last() =~= all.take(i - 1));
        }
        let (before, behind): (Vec<char>, Vec<char>) = cut(&fields[i - 1], '=');
        if same_text(string_of(&before).as_str(), name) {
            return Some(behind);
        }
        i -= 1;
    }
    None
}

/// Finds out what a request asks for.
pub fn route(method: Method, url: &str) -> (r: Route)
    ensures
        r@ == route_of(method, url@),
{
    let whole: Vec<char> = chars_of(url);
    let parts: Vec<Vec<char>> = split(&whole, '?');
    assert(text::pieces(url@, '?')[0] == parts@[0]@);
    let path: String = string_of(&parts[0]);
    match method {
        Method::Get => {
            if same_text(path.as_str(), "/") {
                return Route::Sync;
            }
            if !same_text(path.as_str(), "/send") {
                return Route::NotFound;
            }
            let fields: Vec<Vec<char>> = if parts.len() > 1 {
                assert(text::pieces(url@, '?')[1] == parts@[1]@);
                split(&parts[1], '&')
            } else {
                let none: Vec<char> = Vec::new();
                assert(none@ =~= Seq::<char>::empty());
                split(&none, '&')
            };
            let to: String = match find_value(&fields, "a") {
                Some(v) => string_of(&v),
                None => {
                    let none: String = String::new();
                    assert(none@ =~= Seq::<char>::empty());
                    none
                },
            };
            let amount: u64 = match find_value(&fields, "p") {
                Some(v) => match parse_u64(&v) {
                    Some(n) => n,
                    None => 0,
                },
                None => 0,
            };
            Route::Send { to, amount }
        },
        Method::Post => {
            if same_text(path.as_str(), "/broadcast") {
                Route::Broadcast
            } else {
                Route::NotFound
            }
        },
        Method::Other => Route::NotFound,
    }
}

// ---------------------------------------------------------------------------
// Laws
// ---------------------------------------------------------------------------

/// Only a GET of `/` syncs, only a GET of `/send` builds a payment, and only a
/// POST of `/broadcast` publishes.
pub proof fn law_routes_need_their_method(method: Method, url: Seq<char>)
    ensures
        route_of(method, url) is Sync ==> method == Method::Get,
        route_of(method, url) is Send ==> method == Method::Get,
        route_of(method, url) is Broadcast ==> method == Method::Post,
        method == Method::Other ==> route_of(method, url) is NotFound,
{
}

/// A field with a one-letter name is cut behind it.
proof fn lemma_field(name: char, value: Seq<char>)
    requires
        name != '=',
    ensures
        text::text_before(seq![name, '='] + value, '=') == seq![name],
        text::text_behind(seq![name, '='] + value, '=') == value,
{
    reveal_with_fuel(text::first_index, 3);
    let field = seq![name, '='] + value;
    assert(field[0] == name);
    assert(field.skip(1)[0] == '=');
    assert(text::first_index(field, '=') == 1);
    assert(text::text_before(field, '=') =~= seq![name]);
    assert(text::text_behind(field, '=') =~= value);
}

/// The link `/send?a=..&p=..` asks for the payment that it names: any address
/// without question marks and ampersands, and any amount.
pub proof fn law_send_link(to: Seq<char>, amount: u64)
    requires
        !to.contains('?'),
        !to.contains('&'),
    ensures
        route_of(
            Method::Get,
            "/send"@.push('?') + ((seq!['a', '='] + to).push('&') + (seq!['p', '='] + text::decimal(
                amount as nat,
            ))),
        ) == (RouteView::Send { to, amount }),
{
    reveal_strlit("/send");
    reveal_strlit("/");
    reveal_strlit("a");
    reveal_strlit("p");
    let a = seq!['a', '='] + to;
    let p = seq!['p', '='] + text::decimal(amount as nat);
    let query = a.push('&') + p;
    text::law_decimal_is_digits(amount as nat);
    assert forall|c: char| c == '?' || c == '&' implies !#[trigger] p.contains(c) by {
        if p.contains(c) {
            let i = choose|i: int| 0 <= i < p.len() && p[i] == c;
            if i >= 2 {
                assert(p[i] == text::decimal(amount as nat)[i - 2]);
                assert(text::is_digit(text::decimal(amount as nat)[i - 2]));
            }
        }
    }
    assert forall|c: char| c == '?' || c == '&' implies !#[trigger] a.contains(c) by {
        if a.contains(c) {
            let i = choose|i: int| 0 <= i < a.len() && a[i] == c;
            if i >= 2 {
                assert(to.contains(to[i - 2]));
                assert(a[i] == to[i - 2]);
            }
        }
    }
    assert(!query.contains('?')) by {
        if query.contains('?') {
            let i = choose|i: int| 0 <= i < query.len() && query[i] == '?';
            if i < a.len() {
                assert(a.contains(a[i]));
            } else if i > a.len() {
                assert(p.contains(p[i - a.len() - 1]));
            }
        }
    }
    assert(!"/send"@.contains('?'));
    text::law_only_piece("/send"@, '?');
    text::law_last_piece("/send"@, '?', query);
    let parts = text::pieces("/send"@.push('?') + query, '?');
    assert(parts =~= seq!["/send"@, query]);
    text::law_only_piece(a, '&');
    text::law_last_piece(a, '&', p);
    let fields = text::pieces(query, '&');
    assert(fields =~= seq![a, p]);
    lemma_field('a', to);
    lemma_field('p', text::decimal(amount as nat));
    text::law_decimal_reads_back(amount);
    assert("a"@ =~= seq!['a']);
    assert("p"@ =~= seq!['p']);
    assert(seq!['a'][0] != seq!['p'][0]);
    assert("/send"@.len() != "/"@.len());
    assert(fields.last() == p);
    assert(fields.drop_last() =~= seq![a]);
    assert(seq![a].last() == a);
    reveal_with_fuel(last_value, 3);
}

} // verus!
