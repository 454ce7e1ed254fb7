//! The bodies that the endpoint reads and writes, and their JSON text.
use vstd::prelude::*;
use crate::json::{
    all_digits, decimal, digits_value, in_quotes, is_digit, json_quoted, json_unquoted, lemma_decimal_digits,
    lemma_digits_prefix, plain, push_decimal, push_quoted, quotes_known, read_quoted,
};

verus! {

/// What a client asks: a query, which this endpoint does not run.
pub struct QueryRequest {
    pub query: String,
}

impl View for QueryRequest {
    type V = Seq<char>;

    open spec fn view(&self) -> Seq<char> {
        self.query@
    }
}

/// One cell of a result table.
pub enum Cell {
    /// A number with an integral value, written as a JSON real (`1.0`).
    Real(i32),
    /// A string, written as a JSON string literal.
    Text(String),
}

/// A result table: the column names, and rows of cells.
pub struct QueryResponse {
    pub headers: Vec<String>,
    pub data: Vec<Vec<Cell>>,
}

/// The error envelope: an HTTP status code and a readable message.
pub struct ErrorBody {
    pub status: u16,
    pub message: String,
}

impl View for ErrorBody {
    type V = (u16, Seq<char>);

    open spec fn view(&self) -> (u16, Seq<char>) {
        (self.status, self.message@)
    }
}

/// The items of a JSON list, separated by commas, where every item has a text.
pub open spec fn joined(items: Seq<Option<Seq<char>>>) -> Option<Seq<char>>
    decreases items.len(),
{
    if items.len() == 0 {
        Some(seq![])
    } else if items.len() == 1 {
        items[0]
    } else {
        match (joined(items.drop_last()), items.last()) {
            (Some(a), Some(b)) => Some(a + seq![','] + b),
            _ => None,
        }
    }
}

/// A JSON list of the items, where every item has a text.
pub open spec fn list_text(items: Seq<Option<Seq<char>>>) -> Option<Seq<char>> {
    match joined(items) {
        Some(t) => Some(seq!['['] + t + seq![']']),
        None => None,
    }
}

/// The JSON text of an integral real: its sign, its digits and `.0`.
pub open spec fn real_text(n: int) -> Seq<char> {
    if n < 0 {
        seq!['-'] + decimal((-n) as nat) + seq!['.', '0']
    } else {
        decimal(n as nat) + seq!['.', '0']
    }
}

pub open spec fn cell_text(c: Cell) -> Option<Seq<char>> {
    match c {
        Cell::Real(n) => Some(real_text(n as int)),
        Cell::Text(s) => json_quoted(s@),
    }
}

/// A text cell is plain.
pub open spec fn cell_plain(c: Cell) -> bool {
    match c {
        Cell::Real(_) => true,
        Cell::Text(s) => plain(s@),
    }
}

pub open spec fn cell_known(c: Cell) -> bool {
    match c {
        Cell::Real(_) => true,
        Cell::Text(s) => quotes_known(s@),
    }
}

/// Every string of the table is plain.
pub open spec fn response_plain(r: QueryResponse) -> bool {
    &&& forall|k: int| 0 <= k < r.headers@.len() ==> plain(#[trigger] r.headers@[k]@)
    &&& forall|k: int, j: int|
        0 <= k < r.data@.len() && 0 <= j < r.data@[k]@.len() ==> cell_plain(#[trigger] r.data@[k]@[j])
}

/// The quoted form of every plain string of the table is known.
pub open spec fn response_known(r: QueryResponse) -> bool {
    &&& forall|k: int| 0 <= k < r.headers@.len() ==> quotes_known(#[trigger] r.headers@[k]@)
    &&& forall|k: int, j: int|
        0 <= k < r.data@.len() && 0 <= j < r.data@[k]@.len() ==> cell_known(#[trigger] r.data@[k]@[j])
}

pub open spec fn row_text(row: Seq<Cell>) -> Option<Seq<char>> {
    list_text(row.map_values(|c: Cell| cell_text(c)))
}

pub open spec fn headers_text(headers: Seq<String>) -> Option<Seq<char>> {
    list_text(headers.map_values(|h: String| json_quoted(h@)))
}

pub open spec fn data_text(rows: Seq<Vec<Cell>>) -> Option<Seq<char>> {
    list_text(rows.map_values(|r: Vec<Cell>| row_text(r@)))
}

/// The JSON object of a result table, where each of its strings has a
/// JSON literal.
pub open spec fn response_text(r: QueryResponse) -> Option<Seq<char>> {
    match (headers_text(r.headers@), data_text(r.data@)) {
        (Some(h), Some(d)) => Some("{\"headers\":"@ + h + ",\"data\":"@ + d + "}"@),
        _ => None,
    }
}

/// The envelope's JSON object around a status's digits and a quoted message.
pub open spec fn envelope_frame(digits: Seq<char>, quoted: Seq<char>) -> Seq<char> {
    "{\"status\":"@ + digits + ",\"message\":"@ + quoted + "}"@
}

/// The JSON text of an error envelope, where its message has a JSON literal.
pub open spec fn envelope_text(status: u16, message: Seq<char>) -> Option<Seq<char>> {
    match json_quoted(message) {
        Some(q) => Some(envelope_frame(decimal(status as nat), q)),
        None => None,
    }
}

proof fn lemma_joined_none(items: Seq<Option<Seq<char>>>, i: int)
    requires
        0 <= i < items.len(),
        items[i] is None,
    ensures
        joined(items) is None,
    decreases items.len(),
{
    if items.len() > 1 && i < items.len() - 1 {
        lemma_joined_none(items.drop_last(), i);
    }
}

proof fn lemma_joined_step(items: Seq<Option<Seq<char>>>, i: int)
    requires
        0 <= i < items.len(),
    ensures
        joined(items.take(i + 1)) == (if i == 0 {
            items[0]
        } else {
            match (joined(items.take(i)), items[i]) {
                (Some(a), Some(b)) => Some(a + seq![','] + b),
                _ => None,
            }
        }),
{
    assert(items.take(i + 1).drop_last() =~= items.take(i));
}

/// Appends the JSON list of the header names to `out`; `false` where one of
/// them has no JSON literal.
fn push_headers(out: &mut String, headers: &Vec<String>) -> (ok: bool)
    ensures
        ok == headers_text(headers@) is Some,
        ok ==> final(out)@ == old(out)@ + headers_text(headers@)->Some_0,
        (forall|k: int| 0 <= k < headers@.len() ==> plain(#[trigger] headers@[k]@)) ==> ok,
        ok ==> forall|k: int| 0 <= k < headers@.len() ==> quotes_known(#[trigger] headers@[k]@),
{
    let ghost items = headers@.map_values(|h: String| json_quoted(h@));
    let ghost start = out@;
    proof {
        reveal_strlit("[");
        reveal_strlit(",");
        reveal_strlit("]");
    }
    out.append("[");
    let mut i: usize = 0;
    while i < headers.len()
        invariant
            0 <= i <= headers.len(),
            items == headers@.map_values(|h: String| json_quoted(h@)),
            joined(items.take(i as int)) is Some,
            out@ == start + "["@ + joined(items.take(i as int))->Some_0,
            forall|k: int| 0 <= k < i ==> quotes_known(#[trigger] headers@[k]@),
        decreases headers.len() - i,
    {
        proof {
            lemma_joined_step(items, i as int);
            reveal_strlit("[");
            reveal_strlit(",");
        }
        let ghost prev = out@;
        if i > 0 {
            out.append(",");
        }
        let ghost before = out@;
        assert(before =~= prev + (if i > 0 { seq![','] } else { seq![] }));
        let ok = push_quoted(out, headers[i].as_str());
        assert(items[i as int] == json_quoted(headers@[i as int]@));
        if !ok {
            proof { lemma_joined_none(items, i as int); }
            return false;
        }
        assert(items[i as int] == Some(out@.subrange(before.len() as int, out@.len() as int)));
        assert(out@ =~= start + "["@ + joined(items.take(i + 1))->Some_0);
        i = i + 1;
    }
    out.append("]");
    assert(items.take(i as int) =~= items);
    assert(out@ =~= start + (seq!['['] + joined(items)->Some_0 + seq![']']));
    true
}

/// Appends the JSON text of an integral real to `out`.
fn push_real(out: &mut String, n: i32)
    ensures
        final(out)@ == old(out)@ + real_text(n as int),
{
    let ghost start = out@;
    proof {
        reveal_strlit("-");
        reveal_strlit(".0");
    }
    if n < 0 {
        out.append("-");
        let m: i64 = n as i64;
        push_decimal(out, (-m) as u64);
    } else {
        push_decimal(out, n as u64);
    }
    out.append(".0");
    assert(out@ =~= start + real_text(n as int));
}

/// Appends the JSON text of a cell to `out`; `false` where it has none.
fn push_cell(out: &mut String, c: &Cell) -> (ok: bool)
    ensures
        ok == cell_text(*c) is Some,
        ok ==> final(out)@ == old(out)@ + cell_text(*c)->Some_0,
        cell_plain(*c) ==> ok,
        cell_known(*c),
{
    match c {
        Cell::Real(n) => {
            push_real(out, *n);
            true
        },
        Cell::Text(t) => push_quoted(out, t.as_str()),
    }
}

/// Appends the JSON list of the cells of a row to `out`; `false` where one of
/// them has no JSON text.
fn push_row(out: &mut String, row: &Vec<Cell>) -> (ok: bool)
    ensures
        ok == row_text(row@) is Some,
        ok ==> final(out)@ == old(out)@ + row_text(row@)->Some_0,
        (forall|k: int| 0 <= k < row@.len() ==> cell_plain(#[trigger] row@[k])) ==> ok,
        ok ==> forall|k: int| 0 <= k < row@.len() ==> cell_known(#[trigger] row@[k]),
{
    let ghost items = row@.map_values(|c: Cell| cell_text(c));
    let ghost start = out@;
    proof {
        reveal_strlit("[");
        reveal_strlit(",");
        reveal_strlit("]");
    }
    out.append("[");
    let mut i: usize = 0;
    while i < row.len()
        invariant
            0 <= i <= row.len(),
            items == row@.map_values(|c: Cell| cell_text(c)),
            joined(items.take(i as int)) is Some,
            out@ == start + "["@ + joined(items.take(i as int))->Some_0,
            forall|k: int| 0 <= k < i ==> cell_known(#[trigger] row@[k]),
        decreases row.len() - i,
    {
        proof {
            lemma_joined_step(items, i as int);
            reveal_strlit("[");
            reveal_strlit(",");
        }
        let ghost prev = out@;
        if i > 0 {
            out.append(",");
        }
        let ghost before = out@;
        assert(before =~= prev + (if i > 0 { seq![','] } else { seq![] }));
        let ok = push_cell(out, &row[i]);
        assert(items[i as int] == cell_text(row@[i as int]));
        if !ok {
            proof { lemma_joined_none(items, i as int); }
            return false;
        }
        assert(items[i as int] == Some(out@.subrange(before.len() as int, out@.len() as int)));
        assert(out@ =~= start + "["@ + joined(items.take(i + 1))->Some_0);
        i = i + 1;
    }
    out.append("]");
    assert(items.take(i as int) =~= items);
    assert(out@ =~= start + (seq!['['] + joined(items)->Some_0 + seq![']']));
    true
}

/// Appends the JSON list of the rows to `out`; `false` where one of them
/// has no JSON text.
fn push_data(out: &mut String, rows: &Vec<Vec<Cell>>) -> (ok: bool)
    ensures
        ok == data_text(rows@) is Some,
        ok ==> final(out)@ == old(out)@ + data_text(rows@)->Some_0,
        (forall|k: int, j: int| 0 <= k < rows@.len() && 0 <= j < rows@[k]@.len()
            ==> cell_plain(#[trigger] rows@[k]@[j])) ==> ok,
        ok ==> forall|k: int, j: int| 0 <= k < rows@.len() && 0 <= j < rows@[k]@.len()
            ==> cell_known(#[trigger] rows@[k]@[j]),
{
    let ghost items = rows@.map_values(|r: Vec<Cell>| row_text(r@));
    let ghost start = out@;
    proof {
        reveal_strlit("[");
        reveal_strlit(",");
        reveal_strlit("]");
    }
    out.append("[");
    let mut i: usize = 0;
    while i < rows.len()
        invariant
            0 <= i <= rows.len(),
            items == rows@.map_values(|r: Vec<Cell>| row_text(r@)),
            joined(items.take(i as int)) is Some,
            out@ == start + "["@ + joined(items.take(i as int))->Some_0,
            forall|k: int, j: int| 0 <= k < i && 0 <= j < rows@[k]@.len()
                ==> cell_known(#[trigger] rows@[k]@[j]),
        decreases rows.len() - i,
    {
        proof {
            lemma_joined_step(items, i as int);
            reveal_strlit("[");
            reveal_strlit(",");
        }
        let ghost prev = out@;
        if i > 0 {
            out.append(",");
        }
        let ghost before = out@;
        assert(before =~= prev + (if i > 0 { seq![','] } else { seq![] }));
        let ok = push_row(out, &rows[i]);
        assert(items[i as int] == row_text(rows@[i as int]@));
        if !ok {
            proof { lemma_joined_none(items, i as int); }
            return false;
        }
        assert(items[i as int] == Some(out@.subrange(before.len() as int, out@.len() as int)));
        assert(out@ =~= start + "["@ + joined(items.take(i + 1))->Some_0);
        i = i + 1;
    }
    out.append("]");
    assert(items.take(i as int) =~= items);
    assert(out@ =~= start + (seq!['['] + joined(items)->Some_0 + seq![']']));
    true
}

impl QueryResponse {
    /// The JSON object of this table; `None` where one of its strings has
    /// no JSON literal.
    pub fn to_json(&self) -> (r: Option<String>)
        ensures
            match r {
                Some(t) => response_text(*self) == Some(t@),
                None => response_text(*self) is None,
            },
            response_plain(*self) ==> r is Some,
            r is Some ==> response_known(*self),
    {
        let mut out = String::new();
        out.append("{\"headers\":");
        if !push_headers(&mut out, &self.headers) {
            return None;
        }
        out.append(",\"data\":");
        if !push_data(&mut out, &self.data) {
            return None;
        }
        out.append("}");
        assert(out@ =~= response_text(*self)->Some_0);
        Some(out)
    }
}

impl ErrorBody {
    /// An envelope for an internal failure: status 500.
    pub fn new(message: String) -> (r: ErrorBody)
        ensures
            r@ == (500u16, message@),
    {
        ErrorBody::with_status(500, message)
    }

    pub fn with_status(status: u16, message: String) -> (r: ErrorBody)
        ensures
            r@ == (status, message@),
    {
        ErrorBody { status, message }
    }

    /// The JSON object of this envelope; `None` where its message has no
    /// JSON literal.
    pub fn to_json(&self) -> (r: Option<String>)
        ensures
            match r {
                Some(t) => envelope_text(self.status, self.message@) == Some(t@),
                None => envelope_text(self.status, self.message@) is None,
            },
            plain(self.message@) ==> r is Some,
            quotes_known(self.message@),
    {
        let mut out = String::new();
        out.append("{\"status\":");
        push_decimal(&mut out, self.status as u64);
        out.append(",\"message\":");
        if !push_quoted(&mut out, self.message.as_str()) {
            return None;
        }
        out.append("}");
        assert(out@ =~= envelope_text(self.status, self.message@)->Some_0);
        Some(out)
    }
}

/// `text` is an envelope's frame around the digits `d` of a status and the
/// literal `q` of a message.
pub open spec fn is_frame(text: Seq<char>, d: Seq<char>, q: Seq<char>) -> bool {
    &&& text == envelope_frame(d, q)
    &&& d.len() > 0
    &&& all_digits(d)
    &&& digits_value(d) <= 65535
}

/// The status and the message literal that an envelope's frame holds.
pub open spec fn frame_parts(text: Seq<char>) -> Option<(u16, Seq<char>)> {
    if exists|d: Seq<char>, q: Seq<char>| is_frame(text, d, q) {
        let (d, q) = choose|d: Seq<char>, q: Seq<char>| is_frame(text, d, q);
        Some((digits_value(d) as u16, q))
    } else {
        None
    }
}

/// The status and the message that an envelope's JSON text holds.
pub open spec fn envelope_decoded(text: Seq<char>) -> Option<(u16, Seq<char>)> {
    match frame_parts(text) {
        Some((status, q)) => match json_unquoted(q) {
            Some(m) => Some((status, m)),
            None => None,
        },
        None => None,
    }
}

proof fn lemma_frame_shape(text: Seq<char>, d: Seq<char>, q: Seq<char>)
    requires
        is_frame(text, d, q),
    ensures
        text.len() == 22 + d.len() + q.len(),
        text.subrange(0, 10) == "{\"status\":"@,
        forall|k: int| 0 <= k < d.len() ==> text[10 + k] == #[trigger] d[k],
        text.subrange(10 + d.len() as int, 21 + d.len() as int) == ",\"message\":"@,
        text[10 + d.len() as int] == ',',
        text[text.len() - 1] == '}',
        q == text.subrange(21 + d.len() as int, text.len() - 1),
{
    reveal_strlit("{\"status\":");
    reveal_strlit(",\"message\":");
    reveal_strlit("}");
    let p = "{\"status\":"@;
    let m = ",\"message\":"@;
    assert(text =~= p + d + m + q + "}"@);
    assert(text.subrange(0, 10) =~= p);
    assert forall|k: int| 0 <= k < d.len() implies text[10 + k] == #[trigger] d[k] by {
        assert(text[10 + k] == (p + d)[10 + k]);
    }
    assert(text.subrange(10 + d.len() as int, 21 + d.len() as int) =~= m);
    assert(text[10 + d.len() as int] == m[0]);
    assert(q =~= text.subrange(21 + d.len() as int, text.len() - 1));
}

/// A text is the frame of at most one pair of status digits and message
/// literal.
proof fn lemma_frame_unique(text: Seq<char>, d1: Seq<char>, q1: Seq<char>, d2: Seq<char>, q2: Seq<char>)
    requires
        is_frame(text, d1, q1),
        is_frame(text, d2, q2),
    ensures
        d1 == d2,
        q1 == q2,
{
    lemma_frame_shape(text, d1, q1);
    lemma_frame_shape(text, d2, q2);
    if d1.len() < d2.len() {
        assert(is_digit(d2[d1.len() as int]));
        assert(text[10 + d1.len() as int] == d2[d1.len() as int]);
    } else if d2.len() < d1.len() {
        assert(is_digit(d1[d2.len() as int]));
        assert(text[10 + d2.len() as int] == d1[d2.len() as int]);
    }
    assert(d1 =~= d2);
}

/// An envelope's frame gives back the status it was written with and its
/// message literal as it stands.
pub proof fn lemma_frame_round_trip(status: u16, quoted: Seq<char>)
    ensures
        frame_parts(envelope_frame(decimal(status as nat), quoted)) == Some((status, quoted)),
{
    let text = envelope_frame(decimal(status as nat), quoted);
    lemma_decimal_digits(status as nat);
    assert(is_frame(text, decimal(status as nat), quoted));
    let (d, q) = choose|d: Seq<char>, q: Seq<char>| is_frame(text, d, q);
    lemma_frame_unique(text, d, q, decimal(status as nat), quoted);
}

/// Decoding the JSON text of an envelope gives back its status, and the
/// message that serde_json reads from the literal it wrote for the message.
pub proof fn lemma_envelope_round_trip(status: u16, message: Seq<char>)
    requires
        envelope_text(status, message) is Some,
    ensures
        envelope_decoded(envelope_text(status, message)->Some_0) == (match json_unquoted(
            json_quoted(message)->Some_0,
        ) {
            Some(m) => Some((status, m)),
            None => None,
        }),
{
    lemma_frame_round_trip(status, json_quoted(message)->Some_0);
}

/// Whether `lit` stands in `text` from position `at` on.
fn has_at(text: &str, n: usize, at: usize, lit: &str) -> (r: bool)
    requires
        n == text@.len(),
        at <= n,
    ensures
        r == (at + lit@.len() <= n && text@.subrange(at as int, at + lit@.len()) == lit@),
{
    let len = lit.unicode_len();
    if len > n - at {
        return false;
    }
    let mut k: usize = 0;
    while k < len
        invariant
            len == lit@.len(),
            at + len <= n,
            n == text@.len(),
            k <= len,
            text@.subrange(at as int, at + k) == lit@.subrange(0, k as int),
        decreases len - k,
    {
        if text.get_char(at + k) != lit.get_char(k) {
            assert(text@.subrange(at as int, at + len)[k as int] != lit@[k as int]);
            return false;
        }
        assert(text@.subrange(at as int, at + k + 1) =~= lit@.subrange(0, k + 1));
        k = k + 1;
    }
    assert(lit@.subrange(0, len as int) =~= lit@);
    true
}

impl ErrorBody {
    /// Reads an envelope from its JSON text; `None` where the text is not one.
    pub fn from_json(text: &str) -> (r: Option<ErrorBody>)
        ensures
            match r {
                Some(e) => envelope_decoded(text@) == Some(e@),
                None => envelope_decoded(text@) is None,
            },
            forall|status: u16, message: Seq<char>|
                plain(message) && text@ == envelope_frame(decimal(status as nat), in_quotes(message))
                ==> r is Some && r->Some_0@ == (status, message),
    {
        let ghost t = text@;
        proof {
            reveal_strlit("{\"status\":");
            reveal_strlit(",\"message\":");
            reveal_strlit("}");
            assert forall|status: u16, message: Seq<char>|
                text@ == #[trigger] envelope_frame(decimal(status as nat), in_quotes(message))
            implies frame_parts(t) == Some((status, in_quotes(message))) by {
                lemma_frame_round_trip(status, in_quotes(message));
            }
        }
        let n = text.unicode_len();
        if !has_at(text, n, 0, "{\"status\":") {
            proof {
                if exists|d: Seq<char>, q: Seq<char>| is_frame(t, d, q) {
                    let (d, q) = choose|d: Seq<char>, q: Seq<char>| is_frame(t, d, q);
                    lemma_frame_shape(t, d, q);
                }
            }
            return None;
        }
        let mut i: usize = 10;
        let mut value: u32 = 0;
        while i < n
            invariant_except_break
                t == text@,
                n == t.len(),
                10 <= i <= n,
                all_digits(t.subrange(10, i as int)),
                value == digits_value(t.subrange(10, i as int)),
                value <= 65535,
            ensures
                t == text@,
                n == t.len(),
                10 <= i <= n,
                all_digits(t.subrange(10, i as int)),
                value == digits_value(t.subrange(10, i as int)),
                value <= 65535,
                i < n ==> !is_digit(t[i as int]),
            decreases n - i,
        {
            let c = text.get_char(i);
            if !('0' <= c && c <= '9') {
                break;
            }
            let ghost run = t.subrange(10, i + 1);
            assert(run.drop_last() =~= t.subrange(10, i as int));
            value = value * 10 + (c as u32 - '0' as u32);
            if value > 65535 {
                proof {
                    assert forall|status: u16, message: Seq<char>|
                        t == #[trigger] envelope_frame(decimal(status as nat), in_quotes(message))
                    implies frame_parts(t) == Some((status, in_quotes(message))) by {
                        lemma_frame_round_trip(status, in_quotes(message));
                    }
                    if exists|d: Seq<char>, q: Seq<char>| is_frame(t, d, q) {
                        let (d, q) = choose|d: Seq<char>, q: Seq<char>| is_frame(t, d, q);
                        lemma_frame_shape(t, d, q);
                        if d.len() <= i - 10 {
                            assert(is_digit(run[d.len() as int]));
                        } else {
                            assert(d.take(i + 1 - 10) =~= run);
                            lemma_digits_prefix(d, i + 1 - 10);
                        }
                    }
                }
                return None;
            }
            assert(all_digits(run));
            i = i + 1;
        }
        let digits_end = i;
        let ok = digits_end > 10 && has_at(text, n, digits_end, ",\"message\":") && digits_end + 11 < n
            && text.get_char(n - 1) == '}';
        if !ok {
            proof {
                if exists|d: Seq<char>, q: Seq<char>| is_frame(t, d, q) {
                    let (d, q) = choose|d: Seq<char>, q: Seq<char>| is_frame(t, d, q);
                    lemma_frame_shape(t, d, q);
                    if d.len() < i - 10 {
                        assert(is_digit(t.subrange(10, i as int)[d.len() as int]));
                    } else if d.len() > i - 10 {
                        assert(t[i as int] == d[i - 10]);
                    }
                }
            }
            return None;
        }
        let ghost d = t.subrange(10, digits_end as int);
        let ghost q = t.subrange(digits_end + 11, n - 1);
        assert(is_frame(t, d, q)) by {
            assert(t =~= envelope_frame(d, q));
        }
        proof {
            let (d2, q2) = choose|d: Seq<char>, q: Seq<char>| is_frame(t, d, q);
            lemma_frame_unique(t, d, q, d2, q2);
        }
        let quoted = text.substring_char(digits_end + 11, n - 1);
        match read_quoted(quoted) {
            Some(message) => Some(ErrorBody { status: value as u16, message }),
            None => None,
        }
    }
}

} // verus!
