//! Reading an HTTP/1.x request from the bytes received so far: the head ends
//! at the first blank line, the request line has a method, a target and an
//! `HTTP/1.x` version, and the `Content-Length` and `Origin` headers are the
//! only ones the backend uses.
use vstd::prelude::*;

use crate::http_api::{split_once_at, MAX_REQUEST_BYTES};
use crate::text::{chars_of, is_whitespace_char, push_char, whitespace_char};
use vstd::utf8::{decode_utf8, encode_utf8, valid_utf8};

verus! {

/// A request as the backend handles it.
#[derive(Debug)]
pub struct HttpRequest {
    pub method: String,
    pub path: String,
    pub origin: Option<String>,
    pub body: Vec<u8>,
}

/// What the head of a request says.
pub struct HeadModel {
    pub method: Seq<char>,
    pub path: Seq<char>,
    pub origin: Option<Seq<char>>,
    pub content_length: usize,
}

/// The outcome of reading the bytes received so far.
pub enum ReadModel {
    NeedMore,
    Invalid,
    Complete(HeadModel, Seq<u8>),
}

#[derive(Debug)]
pub enum ReadProgress {
    NeedMore,
    Invalid,
    Complete(HttpRequest),
}

/// Whether `bytes` holds `\r\n\r\n` at position `k`.
pub open spec fn blank_line_at(bytes: Seq<u8>, k: int) -> bool {
    0 <= k && k + 4 <= bytes.len() && bytes[k] == 13 && bytes[k + 1] == 10 && bytes[k + 2] == 13
        && bytes[k + 3] == 10
}

pub open spec fn has_blank_line(bytes: Seq<u8>) -> bool {
    exists|k: int| blank_line_at(bytes, k)
}

/// Where the head ends: just after the first `\r\n\r\n`.
pub open spec fn head_end(bytes: Seq<u8>) -> int {
    (choose|k: int| blank_line_at(bytes, k) && forall|j: int| 0 <= j < k ==> !blank_line_at(bytes, j))
        + 4
}

/// The lines of a text split at each `\r\n`, with `current` the part of the
/// current line already read.
pub open spec fn lines_from(current: Seq<char>, rest: Seq<char>) -> Seq<Seq<char>>
    decreases rest.len(),
{
    if rest.len() == 0 {
        seq![current]
    } else if rest.len() >= 2 && rest[0] == '\r' && rest[1] == '\n' {
        seq![current] + lines_from(Seq::empty(), rest.skip(2))
    } else {
        lines_from(current.push(rest[0]), rest.drop_first())
    }
}

/// `str::split("\r\n")`.
pub open spec fn crlf_lines(s: Seq<char>) -> Seq<Seq<char>> {
    lines_from(Seq::empty(), s)
}

/// The whitespace-separated words of a text, with `current` the part of the
/// current word already read.
pub open spec fn words_from(current: Seq<char>, rest: Seq<char>) -> Seq<Seq<char>>
    decreases rest.len(),
{
    let done = if current.len() > 0 {
        seq![current]
    } else {
        Seq::empty()
    };
    if rest.len() == 0 {
        done
    } else if is_whitespace_char(rest[0]) {
        done + words_from(Seq::empty(), rest.drop_first())
    } else {
        words_from(current.push(rest[0]), rest.drop_first())
    }
}

/// `str::split_whitespace`.
pub open spec fn words(s: Seq<char>) -> Seq<Seq<char>> {
    words_from(Seq::empty(), s)
}

pub open spec fn trim_start(s: Seq<char>) -> Seq<char>
    decreases s.len(),
{
    if s.len() > 0 && is_whitespace_char(s[0]) {
        trim_start(s.drop_first())
    } else {
        s
    }
}

pub open spec fn trim_end(s: Seq<char>) -> Seq<char>
    decreases s.len(),
{
    if s.len() > 0 && is_whitespace_char(s.last()) {
        trim_end(s.drop_last())
    } else {
        s
    }
}

/// `str::trim`.
pub open spec fn trim_text(s: Seq<char>) -> Seq<char> {
    trim_end(trim_start(s))
}

pub open spec fn ascii_lower(c: char) -> int {
    if 'A' <= c && c <= 'Z' {
        (c as u32) + 32
    } else {
        (c as u32) as int
    }
}

/// `str::eq_ignore_ascii_case`.
pub open spec fn same_ignoring_ascii_case(a: Seq<char>, b: Seq<char>) -> bool {
    a.len() == b.len() && forall|i: int| 0 <= i < a.len() ==> ascii_lower(a[i]) == ascii_lower(b[i])
}

/// `str::parse::<usize>`.
pub open spec fn parsed_usize(s: Seq<char>) -> Option<usize> {
    match crate::text::integer_text_value(s, false) {
        Some(v) => if v <= usize::MAX {
            Some(v as usize)
        } else {
            None
        },
        None => None,
    }
}

/// The `Content-Length` and `Origin` the header lines give, the last one of
/// each winning; `None` when a `Content-Length` is not a number.
pub open spec fn header_fields(lines: Seq<Seq<char>>) -> Option<(usize, Option<Seq<char>>)>
    decreases lines.len(),
{
    if lines.len() == 0 {
        Some((0, None))
    } else {
        match header_fields(lines.drop_last()) {
            None => None,
            Some((length, origin)) => match split_once_at(lines.last(), ':') {
                None => Some((length, origin)),
                Some((name, value)) => {
                    let value = trim_text(value);
                    if same_ignoring_ascii_case(name, "content-length"@) {
                        match parsed_usize(value) {
                            Some(n) => Some((n, origin)),
                            None => None,
                        }
                    } else if same_ignoring_ascii_case(name, "origin"@) {
                        Some((length, Some(value)))
                    } else {
                        Some((length, origin))
                    }
                },
            },
        }
    }
}

/// What a request head says, or `None` when it is malformed.
#[verifier::opaque]
pub open spec fn parse_head(head: Seq<char>) -> Option<HeadModel> {
    let lines = crlf_lines(head);
    let request_line = words(lines[0]);
    if request_line.len() != 3 || request_line[2].len() < 7 || request_line[2].take(7)
        != "HTTP/1."@ {
        None
    } else {
        match header_fields(lines.skip(1)) {
            None => None,
            Some((length, origin)) => Some(
                HeadModel {
                    method: request_line[0],
                    path: request_line[1],
                    origin,
                    content_length: length,
                },
            ),
        }
    }
}

/// The outcome of reading the bytes received so far.
pub open spec fn read_verdict(bytes: Seq<u8>) -> ReadModel {
    if bytes.len() > MAX_REQUEST_BYTES {
        ReadModel::Invalid
    } else if !has_blank_line(bytes) {
        ReadModel::NeedMore
    } else {
        let end = head_end(bytes);
        let head = bytes.take(end);
        if !valid_utf8(head) {
            ReadModel::Invalid
        } else {
            match parse_head(decode_utf8(head)) {
                None => ReadModel::Invalid,
                Some(h) => if end + h.content_length > MAX_REQUEST_BYTES {
                    ReadModel::Invalid
                } else if bytes.len() < end + h.content_length {
                    ReadModel::NeedMore
                } else {
                    ReadModel::Complete(h, bytes.subrange(end, end + h.content_length))
                },
            }
        }
    }
}

pub open spec fn progress_matches(p: ReadProgress, m: ReadModel) -> bool {
    match (p, m) {
        (ReadProgress::NeedMore, ReadModel::NeedMore) => true,
        (ReadProgress::Invalid, ReadModel::Invalid) => true,
        (ReadProgress::Complete(request), ReadModel::Complete(head, body)) => {
            &&& request.method@ == head.method
            &&& request.path@ == head.path
            &&& match (request.origin, head.origin) {
                (Some(a), Some(b)) => a@ == b,
                (None, None) => true,
                _ => false,
            }
            &&& request.body@ == body
        },
        _ => false,
    }
}

/// `std::str::from_utf8` on the first `end` bytes, as an owned string:
/// `Some` exactly when those bytes are valid UTF-8, and then their encoding.
#[verifier::external_body]
fn utf8_prefix(bytes: &Vec<u8>, end: usize) -> (r: Option<String>)
    requires
        end <= bytes@.len(),
    ensures
        match r {
            Some(text) => encode_utf8(text@) == bytes@.take(end as int),
            None => !valid_utf8(bytes@.take(end as int)),
        },
{
    std::str::from_utf8(&bytes[..end]).ok().map(|text| text.to_owned())
}

proof fn lemma_head_end_at(bytes: Seq<u8>, k: int)
    requires
        blank_line_at(bytes, k),
        forall|j: int| 0 <= j < k ==> !blank_line_at(bytes, j),
    ensures
        has_blank_line(bytes),
        head_end(bytes) == k + 4,
{
    let f = choose|f: int|
        blank_line_at(bytes, f) && forall|j: int| 0 <= j < f ==> !blank_line_at(bytes, j);
    if f < k {
        assert(!blank_line_at(bytes, f));
    } else if f > k {
        assert(!blank_line_at(bytes, k));
    }
}

fn find_blank_line(bytes: &Vec<u8>) -> (r: Option<usize>)
    ensures
        match r {
            Some(end) => has_blank_line(bytes@) && end == head_end(bytes@) && end <= bytes@.len(),
            None => !has_blank_line(bytes@),
        },
{
    let n = bytes.len();
    if n < 4 {
        proof {
            assert forall|j: int| !blank_line_at(bytes@, j) by {}
        }
        return None;
    }
    let mut k: usize = 0;
    while k <= n - 4
        invariant
            n == bytes@.len(),
            n >= 4,
            forall|j: int| 0 <= j < k ==> !blank_line_at(bytes@, j),
        decreases n - k,
    {
        if bytes[k] == 13 && bytes[k + 1] == 10 && bytes[k + 2] == 13 && bytes[k + 3] == 10 {
            proof {
                lemma_head_end_at(bytes@, k as int);
            }
            return Some(k + 4);
        }
        k = k + 1;
    }
    proof {
        assert forall|j: int| !blank_line_at(bytes@, j) by {
            if j >= k {
                assert(j + 4 > bytes@.len());
            }
        }
    }
    None
}

/// Splits a text at each `\r\n`.
fn split_lines(s: &Vec<char>) -> (r: Vec<Vec<char>>)
    ensures
        r@.map_values(|p: Vec<char>| p@) == crlf_lines(s@),
{
    let mut lines: Vec<Vec<char>> = Vec::new();
    let mut current: Vec<char> = Vec::new();
    let mut i: usize = 0;
    proof {
        assert(s@.skip(0) =~= s@);
    }
    while i < s.len()
        invariant
            i <= s@.len(),
            lines@.map_values(|p: Vec<char>| p@) + lines_from(current@, s@.skip(i as int))
                == crlf_lines(s@),
        decreases s@.len() - i,
    {
        let rest = Ghost(s@.skip(i as int));
        let ghost done = lines@.map_values(|p: Vec<char>| p@);
        if i + 1 < s.len() && s[i] == '\r' && s[i + 1] == '\n' {
            proof {
                assert(rest@.skip(2) =~= s@.skip(i + 2));
                assert(lines_from(current@, rest@) == seq![current@] + lines_from(
                    Seq::empty(),
                    rest@.skip(2),
                ));
            }
            let finished = current;
            current = Vec::new();
            lines.push(finished);
            proof {
                assert(lines@.map_values(|p: Vec<char>| p@) =~= done.push(finished@));
                assert(done + (seq![finished@] + lines_from(Seq::empty(), s@.skip(i + 2)))
                    =~= done.push(finished@) + lines_from(current@, s@.skip(i + 2)));
            }
            i = i + 2;
        } else {
            let c = s[i];
            proof {
                assert(rest@.drop_first() =~= s@.skip(i + 1));
                assert(lines_from(current@, rest@) == lines_from(current@.push(c), rest@.drop_first()));
            }
            current.push(c);
            i = i + 1;
        }
    }
    let ghost done = lines@.map_values(|p: Vec<char>| p@);
    proof {
        assert(s@.skip(i as int) =~= Seq::<char>::empty());
    }
    lines.push(current);
    proof {
        assert(lines@.map_values(|p: Vec<char>| p@) =~= done.push(lines@.last()@));
        assert(done + seq![lines@.last()@] =~= done.push(lines@.last()@));
    }
    lines
}

/// Splits a text into its whitespace-separated words.
fn split_words(s: &Vec<char>) -> (r: Vec<Vec<char>>)
    ensures
        r@.map_values(|p: Vec<char>| p@) == words(s@),
{
    let mut found: Vec<Vec<char>> = Vec::new();
    let mut current: Vec<char> = Vec::new();
    let mut i: usize = 0;
    proof {
        assert(s@.skip(0) =~= s@);
    }
    while i < s.len()
        invariant
            i <= s@.len(),
            found@.map_values(|p: Vec<char>| p@) + words_from(current@, s@.skip(i as int)) == words(
                s@,
            ),
        decreases s@.len() - i,
    {
        let rest = Ghost(s@.skip(i as int));
        let ghost done = found@.map_values(|p: Vec<char>| p@);
        let c = s[i];
        proof {
            assert(rest@.drop_first() =~= s@.skip(i + 1));
            assert(rest@[0] == c);
        }
        if whitespace_char(c) {
            proof {
                let d = if current@.len() > 0 {
                    seq![current@]
                } else {
                    Seq::<Seq<char>>::empty()
                };
                assert(words_from(current@, rest@) == d + words_from(
                    Seq::empty(),
                    rest@.drop_first(),
                ));
            }
            if current.len() > 0 {
                let finished = current;
                current = Vec::new();
                found.push(finished);
                proof {
                    assert(found@.map_values(|p: Vec<char>| p@) =~= done.push(finished@));
                    assert(done + (seq![finished@] + words_from(Seq::empty(), s@.skip(i + 1)))
                        =~= done.push(finished@) + words_from(current@, s@.skip(i + 1)));
                }
            } else {
                proof {
                    assert(current@ =~= Seq::<char>::empty());
                    assert(Seq::<Seq<char>>::empty() + words_from(Seq::empty(), s@.skip(i + 1))
                        =~= words_from(current@, s@.skip(i + 1)));
                }
            }
        } else {
            proof {
                assert(words_from(current@, rest@) == words_from(
                    current@.push(c),
                    rest@.drop_first(),
                ));
            }
            current.push(c);
        }
        i = i + 1;
    }
    let ghost done = found@.map_values(|p: Vec<char>| p@);
    proof {
        assert(s@.skip(i as int) =~= Seq::<char>::empty());
    }
    if current.len() > 0 {
        found.push(current);
        proof {
            assert(found@.map_values(|p: Vec<char>| p@) =~= done.push(found@.last()@));
            assert(done + seq![found@.last()@] =~= done.push(found@.last()@));
        }
    } else {
        proof {
            assert(done + Seq::<Seq<char>>::empty() =~= done);
        }
    }
    found
}

fn string_of(chars: &Vec<char>) -> (r: String)
    ensures
        r@ == chars@,
{
    let mut out = String::new();
    let mut i: usize = 0;
    while i < chars.len()
        invariant
            i <= chars@.len(),
            out@ == chars@.take(i as int),
        decreases chars@.len() - i,
    {
        push_char(&mut out, chars[i]);
        proof {
            assert(chars@.take(i + 1) =~= chars@.take(i as int).push(chars@[i as int]));
        }
        i = i + 1;
    }
    proof {
        assert(chars@.take(chars@.len() as int) =~= chars@);
    }
    out
}

proof fn lemma_lines_nonempty(current: Seq<char>, rest: Seq<char>)
    ensures
        lines_from(current, rest).len() >= 1,
    decreases rest.len(),
{
    if rest.len() == 0 {
    } else if rest.len() >= 2 && rest[0] == '\r' && rest[1] == '\n' {
        lemma_lines_nonempty(Seq::empty(), rest.skip(2));
    } else {
        lemma_lines_nonempty(current.push(rest[0]), rest.drop_first());
    }
}

proof fn lemma_trim_start(s: Seq<char>, a: int)
    requires
        0 <= a <= s.len(),
        forall|j: int| 0 <= j < a ==> is_whitespace_char(#[trigger] s[j]),
        a == s.len() || !is_whitespace_char(s[a]),
    ensures
        trim_start(s) == s.skip(a),
    decreases a,
{
    if a == 0 {
        assert(s.skip(0) =~= s);
    } else {
        assert(is_whitespace_char(s[0]));
        let t = s.drop_first();
        assert forall|j: int| 0 <= j < a - 1 implies is_whitespace_char(#[trigger] t[j]) by {
            assert(t[j] == s[j + 1]);
        }
        if a < s.len() {
            assert(t[a - 1] == s[a]);
        }
        lemma_trim_start(t, a - 1);
        assert(t.skip(a - 1) =~= s.skip(a));
    }
}

proof fn lemma_trim_end(s: Seq<char>, b: int)
    requires
        0 <= b <= s.len(),
        forall|j: int| b <= j < s.len() ==> is_whitespace_char(#[trigger] s[j]),
        b == 0 || !is_whitespace_char(s[b - 1]),
    ensures
        trim_end(s) == s.take(b),
    decreases s.len() - b,
{
    if b == s.len() {
        assert(s.take(b) =~= s);
    } else {
        assert(is_whitespace_char(s.last()));
        let t = s.drop_last();
        assert forall|j: int| b <= j < t.len() implies is_whitespace_char(#[trigger] t[j]) by {
            assert(t[j] == s[j]);
        }
        if b > 0 {
            assert(t[b - 1] == s[b - 1]);
        }
        lemma_trim_end(t, b);
        assert(t.take(b) =~= s.take(b));
    }
}

/// `str::trim` on the characters `s[from..]`.
fn trimmed_chars(s: &Vec<char>, from: usize) -> (r: Vec<char>)
    requires
        from <= s@.len(),
    ensures
        r@ == trim_text(s@.skip(from as int)),
{
    let ghost t = s@.skip(from as int);
    let n = s.len();
    let mut a = from;
    while a < n && whitespace_char(s[a])
        invariant
            from <= a <= n,
            n == s@.len(),
            t == s@.skip(from as int),
            forall|j: int| 0 <= j < a - from ==> is_whitespace_char(#[trigger] t[j]),
        decreases n - a,
    {
        proof {
            assert(t[a - from] == s@[a as int]);
        }
        a = a + 1;
    }
    proof {
        if a < n {
            assert(t[a - from] == s@[a as int]);
        }
        lemma_trim_start(t, a - from);
    }
    let ghost u = t.skip(a - from);
    let mut b = n;
    while b > a && whitespace_char(s[b - 1])
        invariant
            a <= b <= n,
            n == s@.len(),
            u == s@.skip(a as int),
            forall|j: int| b - a <= j < u.len() ==> is_whitespace_char(#[trigger] u[j]),
        decreases b,
    {
        proof {
            assert(u[b - 1 - a] == s@[b - 1]);
        }
        b = b - 1;
    }
    proof {
        assert(u =~= s@.skip(a as int));
        if b > a {
            assert(u[b - a - 1] == s@[b - 1]);
        }
        lemma_trim_end(u, b - a);
    }
    let mut out: Vec<char> = Vec::new();
    let mut i = a;
    while i < b
        invariant
            a <= i <= b <= n,
            n == s@.len(),
            out@ == s@.subrange(a as int, i as int),
        decreases b - i,
    {
        out.push(s[i]);
        proof {
            assert(s@.subrange(a as int, i + 1) =~= s@.subrange(a as int, i as int).push(s@[i as int]));
        }
        i = i + 1;
    }
    proof {
        assert(out@ =~= u.take(b - a));
    }
    out
}

fn lower_ascii(c: char) -> (r: u32)
    ensures
        r == ascii_lower(c),
{
    if 'A' <= c && c <= 'Z' {
        c as u32 + 32
    } else {
        c as u32
    }
}

/// `str::eq_ignore_ascii_case` between `a[from..to]` and `b`.
fn same_ignoring_case(a: &Vec<char>, from: usize, to: usize, b: &str) -> (r: bool)
    requires
        from <= to <= a@.len(),
    ensures
        r == same_ignoring_ascii_case(a@.subrange(from as int, to as int), b@),
{
    let ghost x = a@.subrange(from as int, to as int);
    let other = chars_of(b);
    if to - from != other.len() {
        return false;
    }
    let mut i: usize = 0;
    while i < other.len()
        invariant
            from <= to <= a@.len(),
            to - from == other@.len(),
            other@ == b@,
            x == a@.subrange(from as int, to as int),
            i <= other@.len(),
            forall|j: int| 0 <= j < i ==> ascii_lower(x[j]) == ascii_lower(b@[j]),
        decreases other@.len() - i,
    {
        proof {
            assert(x[i as int] == a@[from + i]);
        }
        if lower_ascii(a[from + i]) != lower_ascii(other[i]) {
            return false;
        }
        i = i + 1;
    }
    true
}

fn position_of_colon(line: &Vec<char>) -> (r: Option<usize>)
    ensures
        match r {
            Some(k) => crate::http_api::holds_char(line@, ':') && k == crate::http_api::first_position(
                line@,
                ':',
            ) && k < line@.len() && line@[k as int] == ':',
            None => !crate::http_api::holds_char(line@, ':'),
        },
{
    let mut k: usize = 0;
    while k < line.len()
        invariant
            k <= line@.len(),
            forall|j: int| 0 <= j < k ==> line@[j] != ':',
        decreases line@.len() - k,
    {
        if line[k] == ':' {
            proof {
                assert(crate::http_api::holds_char(line@, ':'));
                let f = crate::http_api::first_position(line@, ':');
                assert(0 <= k < line@.len() && line@[k as int] == ':' && forall|j: int| 0 <= j < k ==> line@[j] != ':');
                if f < k {
                    assert(line@[f] != ':');
                } else if f > k {
                    assert(line@[k as int] != ':');
                }
            }
            return Some(k);
        }
        k = k + 1;
    }
    None
}

/// One header line applied to the fields read so far.
fn apply_header(line: &Vec<char>, length: usize, origin: Option<Vec<char>>) -> (r: Option<
    (usize, Option<Vec<char>>),
>)
    ensures
        ({
            let before = (length, match origin {
                Some(o) => Some(o@),
                None => None,
            });
            let after = match split_once_at(line@, ':') {
                None => Some(before),
                Some((name, value)) => {
                    let value = trim_text(value);
                    if same_ignoring_ascii_case(name, "content-length"@) {
                        match parsed_usize(value) {
                            Some(n) => Some((n, before.1)),
                            None => None,
                        }
                    } else if same_ignoring_ascii_case(name, "origin"@) {
                        Some((before.0, Some(value)))
                    } else {
                        Some(before)
                    }
                },
            };
            match (r, after) {
                (Some((n, o)), Some((m, p))) => n == m && match (o, p) {
                    (Some(x), Some(y)) => x@ == y,
                    (None, None) => true,
                    _ => false,
                },
                (None, None) => true,
                _ => false,
            }
        }),
{
    let colon = match position_of_colon(line) {
        None => {
            return Some((length, origin));
        },
        Some(k) => k,
    };
    let n = line.len();
    assert(colon < n);
    let value = trimmed_chars(line, colon + 1);
    proof {
        assert(line@.subrange(0, colon as int) =~= line@.take(colon as int));
    }
    if same_ignoring_case(line, 0, colon, "content-length") {
        match crate::text::parse_usize_chars(&value) {
            Some(v) => Some((v, origin)),
            None => None,
        }
    } else if same_ignoring_case(line, 0, colon, "origin") {
        Some((length, Some(value)))
    } else {
        Some((length, origin))
    }
}

fn http1_version(version: &Vec<char>) -> (r: bool)
    ensures
        r == (version@.len() >= 7 && version@.take(7) == "HTTP/1."@),
{
    proof {
        reveal_strlit("HTTP/1.");
    }
    if version.len() < 7 {
        return false;
    }
    let prefix = chars_of("HTTP/1.");
    let mut k: usize = 0;
    while k < 7
        invariant
            k <= 7,
            version@.len() >= 7,
            prefix@ == "HTTP/1."@,
            prefix@.len() == 7,
            forall|j: int| 0 <= j < k ==> version@[j] == prefix@[j],
        decreases 7 - k,
    {
        if version[k] != prefix[k] {
            proof {
                assert(version@.take(7)[k as int] != "HTTP/1."@[k as int]);
            }
            return false;
        }
        k = k + 1;
    }
    proof {
        assert(version@.take(7) =~= "HTTP/1."@);
    }
    true
}

/// What a request head says, or `None` when it is malformed.
fn read_head(head: &Vec<char>) -> (r: Option<(Vec<char>, Vec<char>, Option<Vec<char>>, usize)>)
    ensures
        match (r, parse_head(head@)) {
            (Some((method, path, origin, length)), Some(h)) => {
                &&& method@ == h.method
                &&& path@ == h.path
                &&& length == h.content_length
                &&& match (origin, h.origin) {
                    (Some(x), Some(y)) => x@ == y,
                    (None, None) => true,
                    _ => false,
                }
            },
            (None, None) => true,
            _ => false,
        },
{
    proof {
        reveal(parse_head);
    }
    let lines = split_lines(head);
    let ghost ls = lines@.map_values(|p: Vec<char>| p@);
    proof {
        lemma_lines_nonempty(Seq::empty(), head@);
        assert(ls[0] == lines@[0]@);
    }
    let request_line = split_words(&lines[0]);
    if request_line.len() != 3 {
        return None;
    }
    let ghost ws = request_line@.map_values(|p: Vec<char>| p@);
    proof {
        assert(ws[2] == request_line@[2]@);
        assert(ws[0] == request_line@[0]@);
        assert(ws[1] == request_line@[1]@);
        reveal_strlit("HTTP/1.");
    }
    if !http1_version(&request_line[2]) {
        return None;
    }
    let mut length: usize = 0;
    let mut origin: Option<Vec<char>> = None;
    let mut i: usize = 1;
    let ghost tail = ls.skip(1);
    proof {
        assert(tail.take(0) =~= Seq::<Seq<char>>::empty());
    }
    while i < lines.len()
        invariant
            1 <= i <= lines@.len(),
            ls == lines@.map_values(|p: Vec<char>| p@),
            ls == crlf_lines(head@),
            tail == ls.skip(1),
            words(ls[0]).len() == 3,
            words(ls[0])[2].len() >= 7,
            words(ls[0])[2].take(7) == "HTTP/1."@,
            header_fields(tail.take(i - 1)) matches Some((n, o)) && n == length && match (
                origin,
                o,
            ) {
                (Some(x), Some(y)) => x@ == y,
                (None, None) => true,
                _ => false,
            },
        decreases lines@.len() - i,
    {
        proof {
            assert(tail.take(i as int).drop_last() =~= tail.take(i - 1));
            assert(tail.take(i as int).last() == lines@[i as int]@);
        }
        match apply_header(&lines[i], length, origin) {
            None => {
                proof {
                    reveal(parse_head);
                    lemma_header_error_sticks(tail, i as int, tail.len() as int);
                    assert(tail.take(tail.len() as int) =~= tail);
                }
                return None;
            },
            Some((n, o)) => {
                length = n;
                origin = o;
            },
        }
        i = i + 1;
    }
    proof {
        assert(tail.take(tail.len() as int) =~= tail);
    }
    let method = request_line[0].clone();
    let path = request_line[1].clone();
    Some((method, path, origin, length))
}

proof fn lemma_header_error_sticks(lines: Seq<Seq<char>>, k: int, n: int)
    requires
        1 <= k <= n <= lines.len(),
        header_fields(lines.take(k)) is None,
    ensures
        header_fields(lines.take(n)) is None,
    decreases n - k,
{
    if n > k {
        lemma_header_error_sticks(lines, k, n - 1);
        assert(lines.take(n).drop_last() =~= lines.take(n - 1));
    }
}

/// Collects the bytes of a request as they arrive.
pub struct RequestReader {
    bytes: Vec<u8>,
}

impl View for RequestReader {
    type V = Seq<u8>;

    closed spec fn view(&self) -> Seq<u8> {
        self.bytes@
    }
}

impl RequestReader {
    pub fn new() -> (r: Self)
        ensures
            r@ == Seq::<u8>::empty(),
    {
        RequestReader { bytes: Vec::new() }
    }

    /// Adds the next bytes received and reports what the request amounts to
    /// so far.
    pub fn feed(&mut self, chunk: &[u8]) -> (r: ReadProgress)
        ensures
            final(self)@ == old(self)@ + chunk@,
            progress_matches(r, read_verdict(final(self)@)),
    {
        let mut i: usize = 0;
        let ghost start = self.bytes@;
        while i < chunk.len()
            invariant
                i <= chunk@.len(),
                self.bytes@ == start + chunk@.take(i as int),
            decreases chunk@.len() - i,
        {
            self.bytes.push(chunk[i]);
            proof {
                assert(start + chunk@.take(i + 1) =~= (start + chunk@.take(i as int)).push(chunk@[i as int]));
            }
            i = i + 1;
        }
        proof {
            assert(chunk@.take(chunk@.len() as int) =~= chunk@);
        }
        assess(&self.bytes)
    }
}

fn copy_range(bytes: &Vec<u8>, from: usize, to: usize) -> (r: Vec<u8>)
    requires
        from <= to <= bytes@.len(),
    ensures
        r@ == bytes@.subrange(from as int, to as int),
{
    let mut out: Vec<u8> = Vec::new();
    let mut i = from;
    while i < to
        invariant
            from <= i <= to <= bytes@.len(),
            out@ == bytes@.subrange(from as int, i as int),
        decreases to - i,
    {
        out.push(bytes[i]);
        proof {
            assert(bytes@.subrange(from as int, i + 1) =~= bytes@.subrange(from as int, i as int).push(
                bytes@[i as int],
            ));
        }
        i = i + 1;
    }
    out
}

#[verifier::rlimit(80)]
fn assess(bytes: &Vec<u8>) -> (r: ReadProgress)
    ensures
        progress_matches(r, read_verdict(bytes@)),
{
    if bytes.len() > MAX_REQUEST_BYTES {
        return ReadProgress::Invalid;
    }
    let end = match find_blank_line(bytes) {
        None => {
            return ReadProgress::NeedMore;
        },
        Some(end) => end,
    };
    let text = match utf8_prefix(bytes, end) {
        None => {
            return ReadProgress::Invalid;
        },
        Some(text) => text,
    };
    let head = chars_of(text.as_str());
    proof {
        vstd::utf8::encode_utf8_valid_utf8(text@);
        vstd::utf8::encode_utf8_decode_utf8(text@);
        assert(decode_utf8(bytes@.take(end as int)) == head@);
    }
    let (method, path, origin, length) = match read_head(&head) {
        None => {
            return ReadProgress::Invalid;
        },
        Some(h) => h,
    };
    if length > MAX_REQUEST_BYTES - end {
        return ReadProgress::Invalid;
    }
    let stop = end + length;
    if bytes.len() < stop {
        return ReadProgress::NeedMore;
    }
    let body = copy_range(bytes, end, stop);
    let origin = match origin {
        Some(o) => Some(string_of(&o)),
        None => None,
    };
    ReadProgress::Complete(
        HttpRequest { method: string_of(&method), path: string_of(&path), origin, body },
    )
}

} // verus!
