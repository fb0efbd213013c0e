//! The decisions of the private loopback API: which origins may call it,
//! which route a request takes, how market-data queries are read, and which
//! status and body each failure is answered with.
use vstd::prelude::*;

use crate::market_data::{CandleHistoryRequest, RequestModel};
use crate::provider::ProviderError;
use crate::providers::binance::BINANCE_PROVIDER_ID;
use crate::providers::mock::MOCK_PROVIDER_ID;
use crate::text::{
    chars_of, decimal_digits, parse_i64, parse_u32, parsed_i64, parsed_u32, push_char, same_text,
    u64_text,
};
use vstd::utf8::encode_utf8;

verus! {

/// The largest request, head and body together, the backend reads.
pub const MAX_REQUEST_BYTES: usize = 65536;

/// The desktop origins that may call the backend from a browser context.
pub open spec fn allowed_origin(origin: Seq<char>) -> bool {
    ||| origin == "http://tauri.localhost"@
    ||| origin == "tauri://localhost"@
    ||| origin == "http://127.0.0.1:1420"@
    ||| origin == "http://localhost:1420"@
}

pub fn is_allowed_origin(origin: &str) -> (r: bool)
    ensures
        r == allowed_origin(origin@),
{
    same_text(origin, "http://tauri.localhost") || same_text(origin, "tauri://localhost")
        || same_text(origin, "http://127.0.0.1:1420") || same_text(origin, "http://localhost:1420")
}

/// A status line and a JSON body.
pub type Response = (&'static str, String);

pub open spec fn response_is(r: Response, status: &'static str, body: &'static str) -> bool {
    r.0@ == status@ && r.1@ == body@
}

pub fn market_data_not_found() -> (r: Response)
    ensures
        response_is(r, "404 Not Found", "{\"error\":\"market_data_not_found\"}"),
{
    ("404 Not Found", String::from_str("{\"error\":\"market_data_not_found\"}"))
}

pub fn bad_configuration() -> (r: Response)
    ensures
        response_is(r, "400 Bad Request", "{\"error\":\"invalid_configuration\"}"),
{
    ("400 Bad Request", String::from_str("{\"error\":\"invalid_configuration\"}"))
}

pub fn bad_market_data_request() -> (r: Response)
    ensures
        response_is(r, "400 Bad Request", "{\"error\":\"invalid_market_data_request\"}"),
{
    ("400 Bad Request", String::from_str("{\"error\":\"invalid_market_data_request\"}"))
}

pub fn internal_error() -> (r: Response)
    ensures
        response_is(r, "500 Internal Server Error", "{\"error\":\"internal_error\"}"),
{
    ("500 Internal Server Error", String::from_str("{\"error\":\"internal_error\"}"))
}

/// The answer to bytes that are not a well-formed request.
pub fn invalid_request() -> (r: Response)
    ensures
        response_is(r, "400 Bad Request", "{\"error\":\"invalid_request\"}"),
{
    ("400 Bad Request", String::from_str("{\"error\":\"invalid_request\"}"))
}

pub fn not_found() -> (r: Response)
    ensures
        response_is(r, "404 Not Found", "{\"error\":\"not_found\"}"),
{
    ("404 Not Found", String::from_str("{\"error\":\"not_found\"}"))
}

pub fn health() -> (r: Response)
    ensures
        response_is(r, "200 OK", "{\"state\":\"ready\"}"),
{
    ("200 OK", String::from_str("{\"state\":\"ready\"}"))
}

pub fn preflight() -> (r: Response)
    ensures
        response_is(r, "204 No Content", ""),
{
    ("204 No Content", String::from_str(""))
}

pub fn rate_limited() -> (r: Response)
    ensures
        response_is(r, "429 Too Many Requests", "{\"error\":\"market_data_rate_limited\"}"),
{
    ("429 Too Many Requests", String::from_str("{\"error\":\"market_data_rate_limited\"}"))
}

/// The pieces of `s` between the occurrences of `sep`.
pub open spec fn split_text(s: Seq<char>, sep: char) -> Seq<Seq<char>>
    decreases s.len(),
{
    if s.len() == 0 {
        seq![Seq::<char>::empty()]
    } else {
        let before = split_text(s.drop_last(), sep);
        if s.last() == sep {
            before.push(Seq::<char>::empty())
        } else {
            before.update(before.len() - 1, before.last().push(s.last()))
        }
    }
}

proof fn lemma_split_text_nonempty(s: Seq<char>, sep: char)
    ensures
        split_text(s, sep).len() >= 1,
    decreases s.len(),
{
    if s.len() > 0 {
        lemma_split_text_nonempty(s.drop_last(), sep);
    }
}

/// Whether `c` occurs in `s`.
pub open spec fn holds_char(s: Seq<char>, c: char) -> bool {
    exists|k: int| 0 <= k < s.len() && s[k] == c
}

/// The position of the first `c` in `s`.
pub open spec fn first_position(s: Seq<char>, c: char) -> int {
    choose|k: int| 0 <= k < s.len() && s[k] == c && forall|j: int| 0 <= j < k ==> s[j] != c
}

/// `str::split_once`: the text before and after the first `c`.
pub open spec fn split_once_at(s: Seq<char>, c: char) -> Option<(Seq<char>, Seq<char>)> {
    if holds_char(s, c) {
        let k = first_position(s, c);
        Some((s.take(k), s.skip(k + 1)))
    } else {
        None
    }
}

/// The parameter names a market-data query may use.
pub open spec fn known_parameter(name: Seq<char>) -> bool {
    ||| name == "provider"@
    ||| name == "symbol"@
    ||| name == "interval"@
    ||| name == "start_timestamp"@
    ||| name == "end_timestamp"@
    ||| name == "limit"@
}

pub open spec fn names_parameter(pairs: Seq<(Seq<char>, Seq<char>)>, name: Seq<char>) -> bool {
    exists|k: int| 0 <= k < pairs.len() && pairs[k].0 == name
}

pub open spec fn non_empty_text() -> spec_fn(Seq<char>) -> bool {
    |p: Seq<char>| p.len() > 0
}

/// One non-empty piece of a query added to the parameters read so far:
/// `None` when the piece has no `=`, an empty name or value, an unknown
/// name, or a name already given.
pub open spec fn query_step(read: Option<Seq<(Seq<char>, Seq<char>)>>, piece: Seq<char>) -> Option<
    Seq<(Seq<char>, Seq<char>)>,
> {
    match read {
        None => None,
        Some(pairs) => match split_once_at(piece, '=') {
            None => None,
            Some((name, value)) => if name.len() == 0 || value.len() == 0 || !known_parameter(name)
                || names_parameter(pairs, name) {
                None
            } else {
                Some(pairs.push((name, value)))
            },
        },
    }
}

/// The parameters of the first `n` non-empty pieces of a query.
pub open spec fn query_parameters(pieces: Seq<Seq<char>>, n: int) -> Option<
    Seq<(Seq<char>, Seq<char>)>,
>
    decreases n,
{
    if n <= 0 {
        Some(Seq::empty())
    } else {
        query_step(query_parameters(pieces, n - 1), pieces[n - 1])
    }
}

/// The parameters of a whole query string.
pub open spec fn parsed_query(query: Seq<char>) -> Option<Seq<(Seq<char>, Seq<char>)>> {
    let pieces = split_text(query, '&').filter(non_empty_text());
    query_parameters(pieces, pieces.len() as int)
}

/// The value given for a parameter (the first one given under that name).
pub open spec fn parameter(pairs: Seq<(Seq<char>, Seq<char>)>, name: Seq<char>) -> Option<Seq<char>> {
    if names_parameter(pairs, name) {
        Some(
            pairs[choose|k: int|
                0 <= k < pairs.len() && pairs[k].0 == name && forall|j: int|
                    0 <= j < k ==> pairs[j].0 != name].1,
        )
    } else {
        None
    }
}

/// The query parameters of a market-data request, in the order given.
pub struct QueryParameters {
    pairs: Vec<(String, String)>,
}

impl View for QueryParameters {
    type V = Seq<(Seq<char>, Seq<char>)>;

    closed spec fn view(&self) -> Seq<(Seq<char>, Seq<char>)> {
        self.pairs@.map_values(|p: (String, String)| (p.0@, p.1@))
    }
}

fn text_of(chars: &Vec<char>, from: usize, to: usize) -> (r: String)
    requires
        from <= to <= chars@.len(),
    ensures
        r@ == chars@.subrange(from as int, to as int),
{
    let mut out = String::new();
    let mut i = from;
    while i < to
        invariant
            from <= i <= to <= chars@.len(),
            out@ == chars@.subrange(from as int, i as int),
        decreases to - i,
    {
        push_char(&mut out, chars[i]);
        proof {
            assert(chars@.subrange(from as int, i + 1) =~= chars@.subrange(from as int, i as int).push(
                chars@[i as int],
            ));
        }
        i = i + 1;
    }
    out
}

/// The pieces of `s` between the occurrences of `sep`.
pub fn split_chars(s: &Vec<char>, sep: char) -> (r: Vec<Vec<char>>)
    ensures
        r@.map_values(|p: Vec<char>| p@) == split_text(s@, sep),
{
    let mut pieces: Vec<Vec<char>> = Vec::new();
    let mut current: Vec<char> = Vec::new();
    let mut i: usize = 0;
    proof {
        assert(s@.take(0) =~= Seq::<char>::empty());
    }
    while i < s.len()
        invariant
            i <= s@.len(),
            pieces@.map_values(|p: Vec<char>| p@).push(current@) == split_text(s@.take(i as int), sep),
        decreases s@.len() - i,
    {
        let c = s[i];
        let ghost before = pieces@.map_values(|p: Vec<char>| p@).push(current@);
        proof {
            assert(s@.take(i + 1).drop_last() =~= s@.take(i as int));
            assert(s@.take(i + 1).last() == c);
        }
        if c == sep {
            let done = current;
            current = Vec::new();
            let ghost old_pieces = pieces@;
            pieces.push(done);
            proof {
                assert(pieces@.map_values(|p: Vec<char>| p@) =~= old_pieces.map_values(
                    |p: Vec<char>| p@,
                ).push(done@));
                assert(pieces@.map_values(|p: Vec<char>| p@).push(current@) =~= before.push(
                    Seq::<char>::empty(),
                ));
            }
        } else {
            current.push(c);
            proof {
                assert(pieces@.map_values(|p: Vec<char>| p@).push(current@) =~= before.update(
                    before.len() - 1,
                    before.last().push(c),
                ));
            }
        }
        i = i + 1;
    }
    let ghost old_pieces = pieces@;
    pieces.push(current);
    proof {
        assert(s@.take(s@.len() as int) =~= s@);
        assert(pieces@.map_values(|p: Vec<char>| p@) =~= old_pieces.map_values(|p: Vec<char>| p@).push(
            pieces@.last()@,
        ));
    }
    pieces
}

fn position_of(s: &Vec<char>, c: char) -> (r: Option<usize>)
    ensures
        match r {
            Some(k) => holds_char(s@, c) && k == first_position(s@, c) && k < s@.len() && s@[k as int]
                == c,
            None => !holds_char(s@, c),
        },
{
    let mut k: usize = 0;
    while k < s.len()
        invariant
            k <= s@.len(),
            forall|j: int| 0 <= j < k ==> s@[j] != c,
        decreases s@.len() - k,
    {
        if s[k] == c {
            proof {
                assert(holds_char(s@, c));
                let f = first_position(s@, c);
                if f < k {
                    assert(s@[f] != c);
                } else if f > k {
                }
            }
            return Some(k);
        }
        k = k + 1;
    }
    None
}

fn known_name(name: &str) -> (r: bool)
    ensures
        r == known_parameter(name@),
{
    same_text(name, "provider") || same_text(name, "symbol") || same_text(name, "interval")
        || same_text(name, "start_timestamp") || same_text(name, "end_timestamp") || same_text(
        name,
        "limit",
    )
}

impl QueryParameters {
    pub fn len(&self) -> (r: usize)
        ensures
            r == self@.len(),
    {
        self.pairs.len()
    }

    /// The value given for `name`.
    pub fn get(&self, name: &str) -> (r: Option<&String>)
        ensures
            match r {
                Some(v) => parameter(self@, name@) == Some(v@),
                None => parameter(self@, name@) is None,
            },
    {
        let mut k: usize = 0;
        while k < self.pairs.len()
            invariant
                k <= self.pairs@.len(),
                forall|j: int| 0 <= j < k ==> self@[j].0 != name@,
            decreases self.pairs@.len() - k,
        {
            proof {
                assert(self@[k as int] == (self.pairs@[k as int].0@, self.pairs@[k as int].1@));
            }
            if same_text(self.pairs[k].0.as_str(), name) {
                proof {
                    lemma_parameter_at(self@, k as int);
                }
                return Some(&self.pairs[k].1);
            }
            k = k + 1;
        }
        None
    }
}

proof fn lemma_parameter_at(pairs: Seq<(Seq<char>, Seq<char>)>, k: int)
    requires
        0 <= k < pairs.len(),
        forall|j: int| 0 <= j < k ==> pairs[j].0 != pairs[k].0,
    ensures
        parameter(pairs, pairs[k].0) == Some(pairs[k].1),
{
    let name = pairs[k].0;
    assert(names_parameter(pairs, name));
    let f = choose|f: int|
        0 <= f < pairs.len() && pairs[f].0 == name && forall|j: int| 0 <= j < f ==> pairs[j].0 != name;
    assert(0 <= k < pairs.len() && pairs[k].0 == name && forall|j: int| 0 <= j < k ==> pairs[j].0 != name);
    if f < k {
        assert(pairs[f].0 != name);
    } else if f > k {
        assert(pairs[k].0 != name);
    }
}

proof fn lemma_query_prefix(s: Seq<Seq<char>>, t: Seq<Seq<char>>, n: int)
    requires
        0 <= n <= s.len(),
        n <= t.len(),
        s.take(n) == t.take(n),
    ensures
        query_parameters(s, n) == query_parameters(t, n),
    decreases n,
{
    if n > 0 {
        assert(s.take(n - 1) =~= s.take(n).take(n - 1));
        assert(t.take(n - 1) =~= t.take(n).take(n - 1));
        assert(s[n - 1] == s.take(n)[n - 1]);
        assert(t[n - 1] == t.take(n)[n - 1]);
        lemma_query_prefix(s, t, n - 1);
    }
}

proof fn lemma_query_none_sticks(s: Seq<Seq<char>>, n: int, m: int)
    requires
        0 <= n <= m,
        query_parameters(s, n) is None,
    ensures
        query_parameters(s, m) is None,
    decreases m - n,
{
    if m > n {
        lemma_query_none_sticks(s, n, m - 1);
    }
}

fn names_known(pairs: &Vec<(String, String)>, name: &str) -> (r: bool)
    ensures
        r == names_parameter(pairs@.map_values(|p: (String, String)| (p.0@, p.1@)), name@),
{
    let ghost views = pairs@.map_values(|p: (String, String)| (p.0@, p.1@));
    let mut k: usize = 0;
    while k < pairs.len()
        invariant
            k <= pairs@.len(),
            views == pairs@.map_values(|p: (String, String)| (p.0@, p.1@)),
            forall|j: int| 0 <= j < k ==> views[j].0 != name@,
        decreases pairs@.len() - k,
    {
        proof {
            assert(views[k as int] == (pairs@[k as int].0@, pairs@[k as int].1@));
        }
        if same_text(pairs[k].0.as_str(), name) {
            return true;
        }
        k = k + 1;
    }
    false
}

#[verifier::rlimit(30)]
fn accept_piece(pairs: &mut Vec<(String, String)>, piece: &Vec<char>) -> (ok: bool)
    ensures
        match query_step(
            Some(old(pairs)@.map_values(|p: (String, String)| (p.0@, p.1@))),
            piece@,
        ) {
            Some(read) => ok && final(pairs)@.map_values(|p: (String, String)| (p.0@, p.1@)) == read,
            None => !ok,
        },
{
    let ghost views = pairs@.map_values(|p: (String, String)| (p.0@, p.1@));
    let at = match position_of(piece, '=') {
        None => {
            return false;
        },
        Some(k) => k,
    };
    let length = piece.len();
    assert(at < length);
    let name = text_of(piece, 0, at);
    let value = text_of(piece, at + 1, length);
    proof {
        assert(name@ =~= piece@.take(at as int));
        assert(value@ =~= piece@.skip(at + 1));
        assert(split_once_at(piece@, '=') == Some((name@, value@)));
    }
    let refused = name.as_str().is_empty() || value.as_str().is_empty() || !known_name(name.as_str())
        || names_known(pairs, name.as_str());
    assert(refused == (name@.len() == 0 || value@.len() == 0 || !known_parameter(name@)
        || names_parameter(views, name@)));
    if refused {
        return false;
    }
    pairs.push((name, value));
    proof {
        assert(pairs@.map_values(|p: (String, String)| (p.0@, p.1@)) =~= views.push(
            (piece@.take(at as int), piece@.skip(at + 1)),
        ));
    }
    true
}

/// Reads the parameters of a market-data query.
pub fn parse_query(query: &str) -> (r: Option<QueryParameters>)
    ensures
        match parsed_query(query@) {
            Some(pairs) => r matches Some(q) && q@ == pairs,
            None => r is None,
        },
{
    let chars = chars_of(query);
    let pieces = split_chars(&chars, '&');
    let ghost all = pieces@.map_values(|p: Vec<char>| p@);
    let ghost keep = non_empty_text();
    let mut pairs: Vec<(String, String)> = Vec::new();
    let mut i: usize = 0;
    proof {
        assert(all.take(0) =~= Seq::<Seq<char>>::empty());
        reveal(Seq::filter);
        assert(all.take(0).filter(keep) =~= Seq::<Seq<char>>::empty());
        assert(pairs@.map_values(|p: (String, String)| (p.0@, p.1@)) =~= Seq::<(Seq<char>, Seq<char>)>::empty());
    }
    while i < pieces.len()
        invariant
            i <= pieces@.len(),
            all == pieces@.map_values(|p: Vec<char>| p@),
            all == split_text(query@, '&'),
            keep == non_empty_text(),
            query_parameters(all.take(i as int).filter(keep), all.take(i as int).filter(keep).len() as int)
                == Some(pairs@.map_values(|p: (String, String)| (p.0@, p.1@))),
        decreases pieces@.len() - i,
    {
        let piece = &pieces[i];
        let ghost prefix = all.take(i as int).filter(keep);
        let ghost views = pairs@.map_values(|p: (String, String)| (p.0@, p.1@));
        proof {
            assert(all[i as int] == piece@);
            assert(all.take(i + 1) =~= all.take(i as int).push(piece@));
            all.take(i as int).lemma_filter_push(piece@, keep);
        }
        if piece.len() == 0 {
            i = i + 1;
            continue;
        }
        let ghost extended = prefix.push(piece@);
        proof {
            assert(all.take(i + 1).filter(keep) == extended);
            assert(extended.take(prefix.len() as int) =~= prefix);
            assert(prefix.take(prefix.len() as int) =~= prefix);
            lemma_query_prefix(extended, prefix, prefix.len() as int);
            assert(extended[prefix.len() as int] == piece@);
        }
        if !accept_piece(&mut pairs, piece) {
            proof {
                lemma_rest_of_query(all, i as int + 1, keep);
            }
            return None;
        }
        i = i + 1;
    }
    proof {
        assert(all.take(pieces@.len() as int) =~= all);
    }
    Some(QueryParameters { pairs })
}

/// Once a piece is refused, the whole query is.
proof fn lemma_rest_of_query(all: Seq<Seq<char>>, n: int, keep: spec_fn(Seq<char>) -> bool)
    requires
        0 <= n <= all.len(),
        keep == non_empty_text(),
        query_parameters(all.take(n).filter(keep), all.take(n).filter(keep).len() as int) is None,
    ensures
        query_parameters(all.filter(keep), all.filter(keep).len() as int) is None,
{
    let head = all.take(n);
    let tail = all.skip(n);
    assert(all =~= head + tail);
    Seq::filter_distributes_over_add(head, tail, keep);
    let f = all.filter(keep);
    let h = head.filter(keep);
    assert(f.take(h.len() as int) =~= h);
    assert(h.take(h.len() as int) =~= h);
    lemma_query_prefix(f, h, h.len() as int);
    lemma_query_none_sticks(f, h.len() as int, f.len() as int);
}

/// A parameter read as an `i64`: absent, a number, or not a number.
pub open spec fn optional_i64_of(pairs: Seq<(Seq<char>, Seq<char>)>, name: Seq<char>) -> Result<
    Option<i64>,
    (),
> {
    match parameter(pairs, name) {
        None => Ok(None),
        Some(text) => match parsed_i64(text) {
            Some(v) => Ok(Some(v)),
            None => Err(()),
        },
    }
}

pub open spec fn optional_u32_of(pairs: Seq<(Seq<char>, Seq<char>)>, name: Seq<char>) -> Result<
    Option<u32>,
    (),
> {
    match parameter(pairs, name) {
        None => Ok(None),
        Some(text) => match parsed_u32(text) {
            Some(v) => Ok(Some(v)),
            None => Err(()),
        },
    }
}

pub fn optional_i64(parameters: &QueryParameters, name: &str) -> (r: Result<Option<i64>, ()>)
    ensures
        r == optional_i64_of(parameters@, name@),
{
    match parameters.get(name) {
        None => Ok(None),
        Some(text) => match parse_i64(text.as_str()) {
            Some(v) => Ok(Some(v)),
            None => Err(()),
        },
    }
}

pub fn optional_u32(parameters: &QueryParameters, name: &str) -> (r: Result<Option<u32>, ()>)
    ensures
        r == optional_u32_of(parameters@, name@),
{
    match parameters.get(name) {
        None => Ok(None),
        Some(text) => match parse_u32(text.as_str()) {
            Some(v) => Ok(Some(v)),
            None => Err(()),
        },
    }
}

/// The history request a query describes: provider, symbol and interval are
/// required; the bounds and the limit, when given, must be numbers.
pub open spec fn history_request_of(pairs: Seq<(Seq<char>, Seq<char>)>) -> Option<RequestModel> {
    match (
        parameter(pairs, "provider"@),
        parameter(pairs, "symbol"@),
        parameter(pairs, "interval"@),
        optional_i64_of(pairs, "start_timestamp"@),
        optional_i64_of(pairs, "end_timestamp"@),
        optional_u32_of(pairs, "limit"@),
    ) {
        (Some(provider), Some(symbol), Some(interval), Ok(start), Ok(end), Ok(limit)) => Some(
            RequestModel {
                provider,
                symbol,
                interval,
                start_timestamp: start,
                end_timestamp: end,
                limit,
            },
        ),
        _ => None,
    }
}

pub open spec fn query_text(query: Option<&str>) -> Seq<char> {
    match query {
        Some(q) => q@,
        None => Seq::empty(),
    }
}

/// Reads the history request of a `GET /market-data/candles` query; a
/// malformed query is answered with `400 Bad Request`.
pub fn candle_history_request(query: Option<&str>) -> (r: Result<CandleHistoryRequest, Response>)
    ensures
        match parsed_query(query_text(query)) {
            Some(pairs) => match history_request_of(pairs) {
                Some(q) => r matches Ok(request) && request@ == q,
                None => r matches Err(response) && response_is(
                    response,
                    "400 Bad Request",
                    "{\"error\":\"invalid_market_data_request\"}",
                ),
            },
            None => r matches Err(response) && response_is(
                response,
                "400 Bad Request",
                "{\"error\":\"invalid_market_data_request\"}",
            ),
        },
{
    let text = match query {
        Some(q) => q,
        None => "",
    };
    proof {
        if query is None {
            reveal_strlit("");
            assert(text@ =~= query_text(query));
        }
    }
    let parameters = match parse_query(text) {
        Some(p) => p,
        None => {
            return Err(bad_market_data_request());
        },
    };
    let provider = match parameters.get("provider") {
        Some(v) => v.clone(),
        None => {
            return Err(bad_market_data_request());
        },
    };
    let symbol = match parameters.get("symbol") {
        Some(v) => v.clone(),
        None => {
            return Err(bad_market_data_request());
        },
    };
    let interval = match parameters.get("interval") {
        Some(v) => v.clone(),
        None => {
            return Err(bad_market_data_request());
        },
    };
    let start_timestamp = match optional_i64(&parameters, "start_timestamp") {
        Ok(v) => v,
        Err(()) => {
            return Err(bad_market_data_request());
        },
    };
    let end_timestamp = match optional_i64(&parameters, "end_timestamp") {
        Ok(v) => v,
        Err(()) => {
            return Err(bad_market_data_request());
        },
    };
    let limit = match optional_u32(&parameters, "limit") {
        Ok(v) => v,
        Err(()) => {
            return Err(bad_market_data_request());
        },
    };
    Ok(CandleHistoryRequest { provider, symbol, interval, start_timestamp, end_timestamp, limit })
}

/// The providers the backend can serve.
#[derive(Clone, Copy, Debug, PartialEq, Eq, Structural)]
pub enum ProviderChoice {
    Mock,
    Binance,
}

pub open spec fn provider_named(id: Seq<char>) -> Option<ProviderChoice> {
    if id == MOCK_PROVIDER_ID@ {
        Some(ProviderChoice::Mock)
    } else if id == BINANCE_PROVIDER_ID@ {
        Some(ProviderChoice::Binance)
    } else {
        None
    }
}

/// The provider a request names.
pub fn choose_provider(provider_id: &str) -> (r: Result<ProviderChoice, ProviderError>)
    ensures
        match provider_named(provider_id@) {
            Some(choice) => r == Ok::<ProviderChoice, ProviderError>(choice),
            None => r matches Err(ProviderError::UnknownProvider(p)) && p@ == provider_id@,
        },
{
    if same_text(provider_id, MOCK_PROVIDER_ID) {
        Ok(ProviderChoice::Mock)
    } else if same_text(provider_id, BINANCE_PROVIDER_ID) {
        Ok(ProviderChoice::Binance)
    } else {
        Err(ProviderError::UnknownProvider(String::from_str(provider_id)))
    }
}

/// The provider a `GET /market-data/catalog` query names: the query must
/// hold exactly the `provider` parameter.
pub fn catalog_provider(query: Option<&str>) -> (r: Result<ProviderChoice, Response>)
    ensures
        match parsed_query(query_text(query)) {
            Some(pairs) => if pairs.len() == 1 && parameter(pairs, "provider"@) is Some {
                match provider_named(parameter(pairs, "provider"@)->0) {
                    Some(choice) => r == Ok::<ProviderChoice, Response>(choice),
                    None => r matches Err(response) && response_is(
                        response,
                        "404 Not Found",
                        "{\"error\":\"market_data_not_found\"}",
                    ),
                }
            } else {
                r matches Err(response) && response_is(
                    response,
                    "400 Bad Request",
                    "{\"error\":\"invalid_market_data_request\"}",
                )
            },
            None => r matches Err(response) && response_is(
                response,
                "400 Bad Request",
                "{\"error\":\"invalid_market_data_request\"}",
            ),
        },
{
    let text = match query {
        Some(q) => q,
        None => "",
    };
    proof {
        if query is None {
            reveal_strlit("");
            assert(text@ =~= query_text(query));
        }
    }
    let parameters = match parse_query(text) {
        Some(p) => p,
        None => {
            return Err(bad_market_data_request());
        },
    };
    if parameters.len() != 1 {
        return Err(bad_market_data_request());
    }
    let provider_id = match parameters.get("provider") {
        Some(v) => v,
        None => {
            return Err(bad_market_data_request());
        },
    };
    match choose_provider(provider_id.as_str()) {
        Ok(choice) => Ok(choice),
        Err(_) => Err(market_data_not_found()),
    }
}

/// How a failed history load is answered.
pub open spec fn history_failure_is(error: ProviderError, r: Response) -> bool {
    match error {
        ProviderError::UnknownProvider(_) | ProviderError::UnknownSymbol(_)
        | ProviderError::UnknownInterval(_) => response_is(
            r,
            "404 Not Found",
            "{\"error\":\"market_data_not_found\"}",
        ),
        ProviderError::InvalidRequest(_) | ProviderError::RequestLimitExceeded { .. } =>
            response_is(r, "400 Bad Request", "{\"error\":\"invalid_market_data_request\"}"),
        ProviderError::RateLimited { .. } => response_is(
            r,
            "429 Too Many Requests",
            "{\"error\":\"market_data_rate_limited\"}",
        ),
        _ => response_is(r, "500 Internal Server Error", "{\"error\":\"internal_error\"}"),
    }
}

pub fn history_failure(error: &ProviderError) -> (r: Response)
    ensures
        history_failure_is(*error, r),
{
    match error {
        ProviderError::UnknownProvider(_) | ProviderError::UnknownSymbol(_)
        | ProviderError::UnknownInterval(_) => market_data_not_found(),
        ProviderError::InvalidRequest(_) | ProviderError::RequestLimitExceeded { .. } =>
            bad_market_data_request(),
        ProviderError::RateLimited { .. } => rate_limited(),
        _ => internal_error(),
    }
}

/// What the backend does with a request.
#[derive(Clone, Copy, Debug, PartialEq, Eq, Structural)]
pub enum Route {
    Preflight,
    Health,
    Catalog,
    Candles,
    LoadConfiguration,
    SaveConfiguration,
    NotFound,
}

pub open spec fn route_for(method: Seq<char>, path: Seq<char>) -> Route {
    if method == "OPTIONS"@ && path == "/configuration"@ {
        Route::Preflight
    } else if method == "GET"@ && path == "/health"@ {
        Route::Health
    } else if method == "GET"@ && path == "/market-data/catalog"@ {
        Route::Catalog
    } else if method == "GET"@ && path == "/market-data/candles"@ {
        Route::Candles
    } else if method == "GET"@ && path == "/configuration"@ {
        Route::LoadConfiguration
    } else if method == "PUT"@ && path == "/configuration"@ {
        Route::SaveConfiguration
    } else {
        Route::NotFound
    }
}

/// The route of a request target and its query, split at the first `?`.
pub fn route_of(method: &str, target: &str) -> (r: (Route, Option<String>))
    ensures
        match split_once_at(target@, '?') {
            Some((path, query)) => r.0 == route_for(method@, path) && (r.1 matches Some(q) && q@
                == query),
            None => r.0 == route_for(method@, target@) && r.1 is None,
        },
{
    let chars = chars_of(target);
    let (path, query) = match position_of(&chars, '?') {
        Some(k) => {
            let length = chars.len();
            assert(k < length);
            let path = text_of(&chars, 0, k);
            let query = text_of(&chars, k + 1, length);
            proof {
                assert(path@ =~= target@.take(k as int));
                assert(query@ =~= target@.skip(k + 1));
            }
            (path, Some(query))
        },
        None => {
            let length = chars.len();
            let path = text_of(&chars, 0, length);
            proof {
                assert(path@ =~= target@);
            }
            (path, None)
        },
    };
    let p = path.as_str();
    let route = if same_text(method, "OPTIONS") && same_text(p, "/configuration") {
        Route::Preflight
    } else if same_text(method, "GET") && same_text(p, "/health") {
        Route::Health
    } else if same_text(method, "GET") && same_text(p, "/market-data/catalog") {
        Route::Catalog
    } else if same_text(method, "GET") && same_text(p, "/market-data/candles") {
        Route::Candles
    } else if same_text(method, "GET") && same_text(p, "/configuration") {
        Route::LoadConfiguration
    } else if same_text(method, "PUT") && same_text(p, "/configuration") {
        Route::SaveConfiguration
    } else {
        Route::NotFound
    };
    (route, query)
}

/// The origin a response may name in its CORS headers: the request's origin
/// when it is allowed.
pub fn response_origin(origin: Option<&str>) -> (r: Option<String>)
    ensures
        match origin {
            Some(o) => if allowed_origin(o@) {
                r matches Some(v) && v@ == o@
            } else {
                r is None
            },
            None => r is None,
        },
{
    match origin {
        Some(o) => if is_allowed_origin(o) {
            Some(String::from_str(o))
        } else {
            None
        },
        None => None,
    }
}

/// The full text of an HTTP/1.1 response with a JSON body.
pub open spec fn response_text(status: Seq<char>, body: Seq<char>, origin: Option<Seq<char>>) -> Seq<
    char,
> {
    let cors = match origin {
        Some(o) => "Access-Control-Allow-Origin: "@ + o
            + "\r\nAccess-Control-Allow-Methods: GET, PUT, OPTIONS\r\nAccess-Control-Allow-Headers: Content-Type\r\nVary: Origin\r\n"@,
        None => Seq::empty(),
    };
    "HTTP/1.1 "@ + status + "\r\nContent-Type: application/json\r\n"@ + cors
        + "Content-Length: "@ + decimal_digits(encode_utf8(body).len()) + "\r\nConnection: close\r\n\r\n"@
        + body
}

pub fn http_response(status: &str, body: &str, allowed_origin: Option<&str>) -> (r: String)
    ensures
        r@ == response_text(
            status@,
            body@,
            match allowed_origin {
                Some(o) => Some(o@),
                None => None,
            },
        ),
{
    let mut out = String::from_str("HTTP/1.1 ");
    out.append(status);
    out.append("\r\nContent-Type: application/json\r\n");
    if let Some(origin) = allowed_origin {
        out.append("Access-Control-Allow-Origin: ");
        out.append(origin);
        out.append(
            "\r\nAccess-Control-Allow-Methods: GET, PUT, OPTIONS\r\nAccess-Control-Allow-Headers: Content-Type\r\nVary: Origin\r\n",
        );
    }
    out.append("Content-Length: ");
    let length = u64_text(body.as_bytes().len() as u64);
    out.append(length.as_str());
    out.append("\r\nConnection: close\r\n\r\n");
    out.append(body);
    proof {
        let cors = match allowed_origin {
            Some(o) => "Access-Control-Allow-Origin: "@ + o@
                + "\r\nAccess-Control-Allow-Methods: GET, PUT, OPTIONS\r\nAccess-Control-Allow-Headers: Content-Type\r\nVary: Origin\r\n"@,
            None => Seq::<char>::empty(),
        };
        assert(out@ =~= "HTTP/1.1 "@ + status@ + "\r\nContent-Type: application/json\r\n"@ + cors
            + "Content-Length: "@ + decimal_digits(encode_utf8(body@).len()) + "\r\nConnection: close\r\n\r\n"@
            + body@);
    }
    out
}

/// Parameters read from query pieces have known names, each given once, and
/// non-empty names and values.
proof fn lemma_query_parameters_distinct(pieces: Seq<Seq<char>>, n: int)
    ensures
        query_parameters(pieces, n) matches Some(pairs) ==> {
            &&& forall|i: int, j: int|
                0 <= i < j < pairs.len() ==> pairs[i].0 != pairs[j].0
            &&& forall|i: int|
                0 <= i < pairs.len() ==> known_parameter(#[trigger] pairs[i].0) && pairs[i].0.len()
                    > 0 && pairs[i].1.len() > 0
        },
    decreases n,
{
    if n > 0 {
        lemma_query_parameters_distinct(pieces, n - 1);
        if let Some(pairs) = query_parameters(pieces, n) {
            let before = query_parameters(pieces, n - 1)->0;
            assert(pairs == before.push(pairs.last()));
            assert forall|i: int, j: int| 0 <= i < j < pairs.len() implies pairs[i].0
                != pairs[j].0 by {
                if j == pairs.len() - 1 {
                    assert(pairs[i] == before[i]);
                    assert(!names_parameter(before, pairs.last().0));
                } else {
                    assert(pairs[i] == before[i]);
                    assert(pairs[j] == before[j]);
                }
            }
            assert forall|i: int| 0 <= i < pairs.len() implies known_parameter(
                #[trigger] pairs[i].0,
            ) && pairs[i].0.len() > 0 && pairs[i].1.len() > 0 by {
                if i < pairs.len() - 1 {
                    assert(pairs[i] == before[i]);
                }
            }
        }
    }
}

/// A query that is accepted names only known parameters, each exactly once
/// and with a non-empty value; a repeated or unknown name, or an empty value,
/// makes the whole query refused.
pub proof fn law_accepted_query_names_are_distinct(query: Seq<char>)
    ensures
        parsed_query(query) matches Some(pairs) ==> {
            &&& forall|i: int, j: int|
                0 <= i < j < pairs.len() ==> pairs[i].0 != pairs[j].0
            &&& forall|i: int|
                0 <= i < pairs.len() ==> known_parameter(#[trigger] pairs[i].0) && pairs[i].1.len()
                    > 0
        },
{
    let pieces = split_text(query, '&').filter(non_empty_text());
    lemma_query_parameters_distinct(pieces, pieces.len() as int);
}

} // verus!
