use vstd::prelude::*;
use crate::error::WebServerError;
use embedded_websocket::WebSocketContext;

verus! {

/// Capacity of a connection's receive buffer.
pub const READ_BUF_LEN: usize = 4096;

/// Longest WebSocket key or protocol item that the handshake can hold.
pub const HANDSHAKE_FIELD_MAX: usize = 24;

/// How many protocol items the handshake keeps.
pub const HANDSHAKE_PROTOCOL_SLOTS: usize = 3;

/// Handshake details that the WebSocket library extracts from a request.
#[verifier::external_type_specification]
#[verifier::external_body]
pub struct ExWebSocketContext(WebSocketContext);

/// A header field: its name and its raw value.
pub type FieldView = (Seq<char>, Seq<u8>);

/// A complete request head: its length in bytes, its path and its fields.
pub type HeadView = (nat, Option<Seq<char>>, Seq<FieldView>);

/// What the HTTP tokenizer makes of a buffer: `None` for malformed bytes,
/// `Some(None)` while the head is incomplete, else the complete head.
pub uninterp spec fn request_head_of(b: Seq<u8>) -> Option<Option<HeadView>>;

/// Whether std's `str::from_utf8` accepts the bytes.
pub uninterp spec fn utf8_valid(b: Seq<u8>) -> bool;

/// A parsed request head, owning its path and fields.
pub struct RequestHead {
    /// Length of the head in bytes, counted from the start of the buffer.
    pub len: usize,
    pub path: Option<String>,
    pub headers: Vec<(String, Vec<u8>)>,
}

impl View for RequestHead {
    type V = HeadView;

    open spec fn view(&self) -> HeadView {
        (
            self.len as nat,
            match self.path {
                Some(p) => Some(p@),
                None => None,
            },
            self.headers@.map_values(|h: (String, Vec<u8>)| (h.0@, h.1@)),
        )
    }
}

/// Relies on httparse::Request::parse (with 64 header slots): `Partial` while
/// the head is incomplete, `Complete(len)` with the offset of the body within
/// the buffer, or an error for malformed bytes.
#[verifier::external_body]
fn parse_request_head(buf: &[u8]) -> (r: Result<Option<RequestHead>, httparse::Error>)
    ensures
        match r {
            Err(_) => request_head_of(buf@) is None,
            Ok(None) => request_head_of(buf@) == Some(None::<HeadView>),
            Ok(Some(h)) => request_head_of(buf@) == Some(Some(h@)) && h.len <= buf@.len(),
        },
{
    let mut headers = [httparse::EMPTY_HEADER; 64];
    let mut request = httparse::Request::new(&mut headers);
    match request.parse(buf) {
        Err(e) => Err(e),
        Ok(httparse::Status::Partial) => Ok(None),
        Ok(httparse::Status::Complete(len)) => Ok(Some(RequestHead {
            len,
            path: request.path.map(String::from),
            headers: request.headers.iter().map(|h| (String::from(h.name), h.value.to_vec())).collect(),
        })),
    }
}

/// Relies on core::str::from_utf8: whether the bytes are UTF-8. ASCII always is.
#[verifier::external_body]
fn is_utf8(b: &[u8]) -> (r: bool)
    ensures
        r == utf8_valid(b@),
        is_ascii_bytes(b@) ==> r,
{
    core::str::from_utf8(b).is_ok()
}

/// Every byte is ASCII.
pub open spec fn is_ascii_bytes(b: Seq<u8>) -> bool {
    forall|i: int| 0 <= i < b.len() ==> #[trigger] b[i] < 128
}

/// Whether std's UTF-8 check accepts `b`, by its own account or because the
/// bytes are ASCII.
pub open spec fn text(b: Seq<u8>) -> bool {
    is_ascii_bytes(b) || utf8_valid(b)
}

/// Whether `v` starts with the separator of a list of protocols: a comma and a
/// space.
pub open spec fn starts_with_separator(v: Seq<u8>) -> bool {
    v.len() >= 2 && v[0] == 44u8 && v[1] == 32u8
}

/// The handshake's walk over a comma-and-space separated protocol list `v`,
/// `run` bytes of the current item having been scanned before `v` and `used`
/// protocol slots filled: `None` where it stores an item longer than its
/// fixed-size strings, else how many slots are filled afterwards. Each item
/// is stored while a slot is free; later items are skipped.
pub open spec fn items_scan(v: Seq<u8>, run: nat, used: nat) -> Option<nat>
    decreases v.len(),
{
    if v.len() == 0 {
        if used >= HANDSHAKE_PROTOCOL_SLOTS {
            Some(used)
        } else if run > HANDSHAKE_FIELD_MAX {
            None
        } else {
            Some(used + 1)
        }
    } else if starts_with_separator(v) {
        if used >= HANDSHAKE_PROTOCOL_SLOTS {
            items_scan(v.subrange(2, v.len() as int), 0, used)
        } else if run > HANDSHAKE_FIELD_MAX {
            None
        } else {
            items_scan(v.subrange(2, v.len() as int), 0, used + 1)
        }
    } else {
        items_scan(v.drop_first(), run + 1, used)
    }
}

/// What the WebSocket library's reading of the fields comes to.
pub enum Handshake {
    /// It accepts the fields: whether they ask for an upgrade.
    Accept(bool),
    /// It rejects a value that is not UTF-8.
    Rejected,
    /// It would store a key or protocol item longer than its fixed-size strings.
    TooLong,
}

/// The bytes of the token `websocket`.
pub open spec fn websocket_token() -> Seq<u8> {
    seq![119u8, 101u8, 98u8, 115u8, 111u8, 99u8, 107u8, 101u8, 116u8]
}

/// The WebSocket library's walk over the fields from `i` on, in order, with
/// the upgrade flag and the protocol slots filled so far.
pub open spec fn handshake_scan(fields: Seq<FieldView>, i: int, upgrade: bool, used: nat) -> Handshake
    decreases fields.len() - i,
{
    if i < 0 || i >= fields.len() {
        Handshake::Accept(upgrade)
    } else {
        let name = fields[i].0;
        let value = fields[i].1;
        if name == "Upgrade"@ {
            if !text(value) {
                Handshake::Rejected
            } else {
                handshake_scan(fields, i + 1, value == websocket_token(), used)
            }
        } else if name == "Sec-WebSocket-Protocol"@ {
            if !text(value) {
                Handshake::Rejected
            } else {
                match items_scan(value, 0, used) {
                    None => Handshake::TooLong,
                    Some(filled) => handshake_scan(fields, i + 1, upgrade, filled),
                }
            }
        } else if name == "Sec-WebSocket-Key"@ {
            if !text(value) {
                Handshake::Rejected
            } else if value.len() > HANDSHAKE_FIELD_MAX {
                Handshake::TooLong
            } else {
                handshake_scan(fields, i + 1, upgrade, used)
            }
        } else {
            handshake_scan(fields, i + 1, upgrade, used)
        }
    }
}

/// What the WebSocket library makes of the fields.
pub open spec fn handshake_of(fields: Seq<FieldView>) -> Handshake {
    handshake_scan(fields, 0, false, 0)
}

/// Relies on embedded_websocket::read_http_header: it walks the fields in
/// order; the last `Upgrade` field sets the upgrade flag; a value of
/// `Upgrade`, `Sec-WebSocket-Protocol` or `Sec-WebSocket-Key` that is not
/// UTF-8 is an error; it panics where it stores a key or one of the first
/// three protocol items longer than 24 bytes, which `requires` leaves out.
#[verifier::external_body]
fn read_upgrade(head: &RequestHead) -> (r: Result<Option<WebSocketContext>, embedded_websocket::Error>)
    requires
        !(handshake_of(head@.2) is TooLong),
    ensures
        match r {
            Err(_) => handshake_of(head@.2) is Rejected,
            Ok(None) => handshake_of(head@.2) == Handshake::Accept(false),
            Ok(Some(_)) => handshake_of(head@.2) == Handshake::Accept(true),
        },
{
    embedded_websocket::read_http_header(head.headers.iter().map(|h| (h.0.as_str(), h.1.as_slice())))
}

/// Walks the protocol list `v` as the handshake does.
fn scan_items(v: &Vec<u8>, used: usize) -> (r: Option<usize>)
    requires
        used <= HANDSHAKE_PROTOCOL_SLOTS,
    ensures
        match items_scan(v@, 0, used as nat) {
            None => r is None,
            Some(n) => r == Some(n as usize) && n <= HANDSHAKE_PROTOCOL_SLOTS,
        },
{
    let mut i: usize = 0;
    let mut run: usize = 0;
    let mut filled: usize = used;
    assert(v@.subrange(0, v@.len() as int) =~= v@);
    while i < v.len()
        invariant
            i <= v@.len(),
            run <= i,
            filled <= HANDSHAKE_PROTOCOL_SLOTS,
            items_scan(v@, 0, used as nat) == items_scan(
                v@.subrange(i as int, v@.len() as int),
                run as nat,
                filled as nat,
            ),
        decreases v@.len() - i,
    {
        let ghost rest = v@.subrange(i as int, v@.len() as int);
        if i + 1 < v.len() && v[i] == 44 && v[i + 1] == 32 {
            assert(starts_with_separator(rest));
            assert(rest.subrange(2, rest.len() as int) =~= v@.subrange(i + 2, v@.len() as int));
            if filled < HANDSHAKE_PROTOCOL_SLOTS {
                if run > HANDSHAKE_FIELD_MAX {
                    return None;
                }
                filled = filled + 1;
            }
            i = i + 2;
            run = 0;
        } else {
            assert(!starts_with_separator(rest));
            assert(rest.drop_first() =~= v@.subrange(i + 1, v@.len() as int));
            i = i + 1;
            run = run + 1;
        }
    }
    assert(v@.subrange(i as int, v@.len() as int).len() == 0);
    if filled >= HANDSHAKE_PROTOCOL_SLOTS {
        Some(filled)
    } else if run > HANDSHAKE_FIELD_MAX {
        None
    } else {
        Some(filled + 1)
    }
}

/// Walks the fields as the WebSocket library does, without building anything.
fn check_handshake(head: &RequestHead) -> (r: Handshake)
    ensures
        r == handshake_of(head@.2),
{
    let upgrade_name = "Upgrade".to_owned();
    let key = "Sec-WebSocket-Key".to_owned();
    let protocol = "Sec-WebSocket-Protocol".to_owned();
    let mut i: usize = 0;
    let mut upgrade = false;
    let mut used: usize = 0;
    while i < head.headers.len()
        invariant
            i <= head@.2.len(),
            head@.2.len() == head.headers@.len(),
            used <= HANDSHAKE_PROTOCOL_SLOTS,
            upgrade_name@ == "Upgrade"@,
            key@ == "Sec-WebSocket-Key"@,
            protocol@ == "Sec-WebSocket-Protocol"@,
            handshake_of(head@.2) == handshake_scan(head@.2, i as int, upgrade, used as nat),
        decreases head.headers@.len() - i,
    {
        let field = &head.headers[i];
        assert(head@.2[i as int].0 == field.0@ && head@.2[i as int].1 == field.1@);
        if field.0 == upgrade_name {
            if !is_utf8(field.1.as_slice()) {
                return Handshake::Rejected;
            }
            upgrade = bytes_are_websocket(&field.1);
        } else if field.0 == protocol {
            if !is_utf8(field.1.as_slice()) {
                return Handshake::Rejected;
            }
            match scan_items(&field.1, used) {
                None => {
                    return Handshake::TooLong;
                },
                Some(filled) => {
                    used = filled;
                },
            }
        } else if field.0 == key {
            if !is_utf8(field.1.as_slice()) {
                return Handshake::Rejected;
            }
            if field.1.len() > HANDSHAKE_FIELD_MAX {
                return Handshake::TooLong;
            }
        }
        i = i + 1;
    }
    Handshake::Accept(upgrade)
}

/// Whether `v` is the token `websocket`.
fn bytes_are_websocket(v: &Vec<u8>) -> (r: bool)
    ensures
        r == (v@ == websocket_token()),
{
    let r = v.len() == 9 && v[0] == 119 && v[1] == 101 && v[2] == 98 && v[3] == 115 && v[4] == 111
        && v[5] == 99 && v[6] == 107 && v[7] == 101 && v[8] == 116;
    if r {
        assert(v@ =~= websocket_token());
    }
    r
}

/// Whether `path` is present and equal to `expected`.
fn path_is(path: &Option<String>, expected: &str) -> (r: bool)
    ensures
        r == (match path {
            Some(p) => p@ == expected@,
            None => false,
        }),
{
    match path {
        Some(p) => {
            let e = expected.to_owned();
            *p == e
        },
        None => false,
    }
}

/// Where a complete request is to be routed.
pub enum Route {
    /// A WebSocket upgrade of the chat endpoint, with its handshake details.
    Upgrade(WebSocketContext),
    /// A plain request for the root page.
    RootPage,
    /// Anything else: answered with the not-found response.
    NotFound,
}

/// The result of handing the classifier one more read's worth of bytes.
pub enum Step {
    /// The head is still incomplete: read more.
    NeedMore,
    /// The head is complete and routed.
    Done(Route),
}

/// The classification of a request, as the contracts speak of it.
pub enum Verdict {
    NeedMore,
    TooLarge,
    Malformed,
    FieldTooLong,
    UpgradeRejected,
    Upgrade,
    RootPage,
    NotFound,
    Other,
}

/// How the bytes received so far are classified.
pub open spec fn classify(b: Seq<u8>) -> Verdict {
    match request_head_of(b) {
        None => Verdict::Malformed,
        Some(None) => if b.len() >= READ_BUF_LEN {
            Verdict::TooLarge
        } else {
            Verdict::NeedMore
        },
        Some(Some(h)) => match handshake_of(h.2) {
            Handshake::TooLong => Verdict::FieldTooLong,
            Handshake::Rejected => Verdict::UpgradeRejected,
            Handshake::Accept(true) => if h.1 == Some("/chat"@) {
                Verdict::Upgrade
            } else {
                Verdict::NotFound
            },
            Handshake::Accept(false) => if h.1 == Some("/"@) {
                Verdict::RootPage
            } else {
                Verdict::NotFound
            },
        },
    }
}

/// The classification that a step's result reports.
pub open spec fn verdict_of(r: Result<Step, WebServerError>) -> Verdict {
    match r {
        Ok(Step::NeedMore) => Verdict::NeedMore,
        Ok(Step::Done(Route::Upgrade(_))) => Verdict::Upgrade,
        Ok(Step::Done(Route::RootPage)) => Verdict::RootPage,
        Ok(Step::Done(Route::NotFound)) => Verdict::NotFound,
        Err(WebServerError::HeaderTooLarge) => Verdict::TooLarge,
        Err(WebServerError::Http(_)) => Verdict::Malformed,
        Err(WebServerError::HandshakeFieldTooLong) => Verdict::FieldTooLong,
        Err(WebServerError::WebSocket(_)) => Verdict::UpgradeRejected,
        Err(_) => Verdict::Other,
    }
}

/// The bytes left in the buffer once the head of `b` is complete: those past
/// its end.
pub open spec fn leftover_of(b: Seq<u8>) -> Seq<u8> {
    match request_head_of(b) {
        Some(Some(h)) => b.subrange(h.0 as int, b.len() as int),
        _ => b,
    }
}

/// A connection's fixed receive buffer while its request head is read, with
/// the read cursor: the count of bytes held at its start.
pub struct HeaderReader {
    buf: [u8; READ_BUF_LEN],
    cursor: usize,
}

impl HeaderReader {
    /// The bytes held: received and not yet consumed by a complete head.
    pub closed spec fn buffered(&self) -> Seq<u8> {
        self.buf@.subrange(0, self.cursor as int)
    }

    /// The cursor stays within the buffer.
    pub closed spec fn wf(&self) -> bool {
        self.cursor <= READ_BUF_LEN && self.buf@.len() == READ_BUF_LEN
    }

    pub fn new() -> (r: HeaderReader)
        ensures
            r.wf(),
            r.buffered() == Seq::<u8>::empty(),
    {
        let r = HeaderReader { buf: [0u8; READ_BUF_LEN], cursor: 0 };
        assert(r.buffered() =~= Seq::<u8>::empty());
        r
    }

    /// The read cursor: how many bytes are held.
    pub fn cursor(&self) -> (r: usize)
        requires
            self.wf(),
        ensures
            r == self.buffered().len(),
    {
        self.cursor
    }

    /// How many more bytes the buffer can take.
    pub fn space(&self) -> (r: usize)
        requires
            self.wf(),
        ensures
            r == READ_BUF_LEN - self.buffered().len(),
    {
        READ_BUF_LEN - self.cursor
    }

    /// The bytes held; once the head is complete, those that followed it.
    pub fn leftover(&self) -> (r: &[u8])
        requires
            self.wf(),
        ensures
            r@ == self.buffered(),
    {
        vstd::slice::slice_subrange(self.buf.as_slice(), 0, self.cursor)
    }

    /// Drops the first `n` bytes held, moving the rest to the start.
    fn consume(&mut self, n: usize)
        requires
            old(self).wf(),
            n <= old(self).cursor,
        ensures
            final(self).wf(),
            final(self).buffered() == old(self).buffered().subrange(
                n as int,
                old(self).cursor as int,
            ),
    {
        let ghost held = self.buffered();
        let rest = self.cursor - n;
        let mut k: usize = 0;
        while k < rest
            invariant
                self.wf(),
                self.cursor == n + rest,
                k <= rest,
                held.len() == n + rest,
                forall|j: int| 0 <= j < k ==> self.buf@[j] == held[n + j],
                forall|j: int| k <= j < n + rest ==> self.buf@[j] == held[j],
            decreases rest - k,
        {
            let b = self.buf[n + k];
            self.buf[k] = b;
            k = k + 1;
        }
        self.cursor = rest;
        assert(self.buffered() =~= held.subrange(n as int, held.len() as int));
    }

    /// Moves as many of the bytes held as `out` takes into its start, oldest
    /// first, and keeps the rest: the next protocol stage reads the leftover
    /// bytes this way before it reads from the network. Returns how many.
    pub fn take_leftover(&mut self, out: &mut [u8]) -> (r: usize)
        requires
            old(self).wf(),
        ensures
            final(self).wf(),
            r == if old(out)@.len() < old(self).buffered().len() {
                old(out)@.len()
            } else {
                old(self).buffered().len()
            },
            final(out)@.len() == old(out)@.len(),
            final(out)@.subrange(r as int, final(out)@.len() as int) == old(out)@.subrange(
                r as int,
                old(out)@.len() as int,
            ),
            old(self).buffered() == final(out)@.subrange(0, r as int) + final(self).buffered(),
    {
        let n: usize = if out.len() < self.cursor {
            out.len()
        } else {
            self.cursor
        };
        let ghost held = self.buffered();
        let ghost before = out@;
        let mut i: usize = 0;
        while i < n
            invariant
                self.wf(),
                held == self.buffered(),
                n <= self.cursor,
                n <= out@.len(),
                out@.len() == before.len(),
                i <= n,
                forall|j: int| 0 <= j < i ==> out@[j] == held[j],
                forall|j: int| i <= j < out@.len() ==> out@[j] == before[j],
            decreases n - i,
        {
            out[i] = self.buf[i];
            i = i + 1;
        }
        self.consume(n);
        assert(held =~= out@.subrange(0, n as int) + self.buffered());
        assert(out@.subrange(n as int, out@.len() as int) =~= before.subrange(
            n as int,
            before.len() as int,
        ));
        n
    }

    /// Appends the bytes of one read and classifies everything held so far.
    /// While the head is incomplete the bytes stay; once it is complete only
    /// the bytes past its end stay, to start whatever follows it.
    pub fn receive(&mut self, data: &[u8]) -> (r: Result<Step, WebServerError>)
        requires
            old(self).wf(),
            data@.len() <= READ_BUF_LEN - old(self).buffered().len(),
        ensures
            final(self).wf(),
            verdict_of(r) == classify(old(self).buffered() + data@),
            !(request_head_of(old(self).buffered() + data@) matches Some(Some(_)))
                ==> final(self).buffered() == old(self).buffered() + data@,
            request_head_of(old(self).buffered() + data@) matches Some(Some(_))
                ==> final(self).buffered() == leftover_of(old(self).buffered() + data@),
    {
        let ghost held = self.buffered();
        let ghost total = held + data@;
        let start = self.cursor;
        let mut i: usize = 0;
        while i < data.len()
            invariant
                self.wf(),
                self.cursor == start,
                start + data@.len() <= READ_BUF_LEN,
                i <= data@.len(),
                total == held + data@,
                held.len() == start,
                forall|j: int| 0 <= j < start ==> self.buf@[j] == total[j],
                forall|j: int| start <= j < start + i ==> self.buf@[j] == total[j],
            decreases data@.len() - i,
        {
            assert(total[start + i] == data@[i as int]);
            self.buf[start + i] = data[i];
            i = i + 1;
        }
        self.cursor = start + data.len();
        assert(self.buffered() =~= total);
        let held = vstd::slice::slice_subrange(self.buf.as_slice(), 0, self.cursor);
        match parse_request_head(held) {
            Err(e) => Err(WebServerError::Http(e)),
            Ok(None) => {
                if self.cursor >= READ_BUF_LEN {
                    Err(WebServerError::HeaderTooLarge)
                } else {
                    Ok(Step::NeedMore)
                }
            },
            Ok(Some(head)) => {
                self.consume(head.len);
                if let Handshake::TooLong = check_handshake(&head) {
                    return Err(WebServerError::HandshakeFieldTooLong);
                }
                match read_upgrade(&head) {
                    Err(e) => Err(WebServerError::WebSocket(e)),
                    Ok(Some(context)) => {
                        if path_is(&head.path, "/chat") {
                            Ok(Step::Done(Route::Upgrade(context)))
                        } else {
                            Ok(Step::Done(Route::NotFound))
                        }
                    },
                    Ok(None) => {
                        if path_is(&head.path, "/") {
                            Ok(Step::Done(Route::RootPage))
                        } else {
                            Ok(Step::Done(Route::NotFound))
                        }
                    },
                }
            },
        }
    }
}

/// The bytes of `chunks`, one read after another.
pub open spec fn concat(chunks: Seq<Seq<u8>>) -> Seq<u8>
    decreases chunks.len(),
{
    if chunks.len() == 0 {
        Seq::empty()
    } else {
        chunks[0] + concat(chunks.drop_first())
    }
}

/// The classification reached by a reader holding `held` that receives
/// `chunks` one read at a time, stopping at the first read that settles it.
pub open spec fn run(held: Seq<u8>, chunks: Seq<Seq<u8>>) -> Verdict
    decreases chunks.len(),
{
    if chunks.len() == 0 {
        Verdict::NeedMore
    } else {
        let next = held + chunks[0];
        if classify(next) is NeedMore {
            run(next, chunks.drop_first())
        } else {
            classify(next)
        }
    }
}

proof fn lemma_run(held: Seq<u8>, chunks: Seq<Seq<u8>>)
    requires
        (held + concat(chunks)).len() <= READ_BUF_LEN,
        classify(held) is NeedMore,
        forall|k: int|
            0 <= k < (held + concat(chunks)).len() ==> request_head_of(
                #[trigger] (held + concat(chunks)).take(k),
            ) == Some(None::<HeadView>),
    ensures
        run(held, chunks) == classify(held + concat(chunks)),
    decreases chunks.len(),
{
    let total = held + concat(chunks);
    if chunks.len() == 0 {
        assert(total =~= held);
    } else {
        let next = held + chunks[0];
        let rest = chunks.drop_first();
        assert(total =~= next + concat(rest));
        if next.len() < total.len() {
            assert(total.take(next.len() as int) =~= next);
            assert(classify(next) is NeedMore);
        } else {
            assert(concat(rest).len() == 0);
            assert(total =~= next);
        }
        if classify(next) is NeedMore {
            assert forall|k: int| 0 <= k < (next + concat(rest)).len() implies request_head_of(
                #[trigger] (next + concat(rest)).take(k),
            ) == Some(None::<HeadView>) by {
                assert((next + concat(rest)).take(k) =~= total.take(k));
            }
            lemma_run(next, rest);
        }
    }
}

proof fn lemma_run_to_last(held: Seq<u8>, chunks: Seq<Seq<u8>>)
    requires
        chunks.len() > 0,
        (held + concat(chunks.drop_last())).len() < READ_BUF_LEN,
        classify(held) is NeedMore,
        forall|k: int|
            0 <= k <= (held + concat(chunks.drop_last())).len() ==> request_head_of(
                #[trigger] (held + concat(chunks)).take(k),
            ) == Some(None::<HeadView>),
    ensures
        run(held, chunks) == classify(held + concat(chunks)),
    decreases chunks.len(),
{
    let total = held + concat(chunks);
    let next = held + chunks[0];
    let rest = chunks.drop_first();
    assert(total =~= next + concat(rest));
    if chunks.len() == 1 {
        assert(rest =~= Seq::<Seq<u8>>::empty());
        assert(total =~= next);
    } else {
        assert(chunks.drop_last().drop_first() =~= rest.drop_last());
        assert(held + concat(chunks.drop_last()) =~= next + concat(rest.drop_last()));
        assert(total.take(next.len() as int) =~= next);
        assert(classify(next) is NeedMore);
        assert forall|k: int| 0 <= k <= (next + concat(rest.drop_last())).len() implies request_head_of(
            #[trigger] (next + concat(rest)).take(k),
        ) == Some(None::<HeadView>) by {
            assert((next + concat(rest)).take(k) =~= total.take(k));
        }
        lemma_run_to_last(next, rest);
    }
}

/// A request delivered in any chunks is classified as it is when it arrives
/// in a single read, where its head ends within the last chunk, which may
/// carry bytes past the head. The bytes before the last chunk are fewer than
/// the buffer holds, and every prefix of them is incomplete to the tokenizer.
pub proof fn lemma_split_with_trailing_bytes(chunks: Seq<Seq<u8>>)
    requires
        chunks.len() > 0,
        concat(chunks).len() <= READ_BUF_LEN,
        concat(chunks.drop_last()).len() < READ_BUF_LEN,
        forall|k: int|
            0 <= k <= concat(chunks.drop_last()).len() ==> request_head_of(
                #[trigger] concat(chunks).take(k),
            ) == Some(None::<HeadView>),
    ensures
        run(Seq::empty(), chunks) == classify(concat(chunks)),
        run(Seq::empty(), chunks) == run(Seq::empty(), seq![concat(chunks)]),
{
    let total = concat(chunks);
    let e = Seq::<u8>::empty();
    assert(e + total =~= total);
    assert(e + concat(chunks.drop_last()) =~= concat(chunks.drop_last()));
    assert(total.take(0) =~= e);
    lemma_run_to_last(e, chunks);
    let whole = seq![total];
    assert(whole.drop_first() =~= Seq::<Seq<u8>>::empty());
    assert(concat(whole.drop_first()) =~= e);
    assert(concat(whole) =~= total);
    assert(whole.drop_last() =~= Seq::<Seq<u8>>::empty());
    assert(e + concat(whole) =~= total);
    lemma_run_to_last(e, whole);
}

/// A request head delivered in any chunks is classified as it is when it
/// arrives in a single read. A head here is a non-empty byte sequence that
/// fits the buffer and of which every shorter prefix is incomplete to the
/// tokenizer.
pub proof fn lemma_split_invariance(chunks: Seq<Seq<u8>>)
    requires
        0 < concat(chunks).len() <= READ_BUF_LEN,
        forall|k: int|
            0 <= k < concat(chunks).len() ==> request_head_of(#[trigger] concat(chunks).take(k))
                == Some(None::<HeadView>),
    ensures
        run(Seq::empty(), chunks) == classify(concat(chunks)),
        run(Seq::empty(), chunks) == run(Seq::empty(), seq![concat(chunks)]),
{
    let total = concat(chunks);
    assert(Seq::<u8>::empty() + total =~= total);
    assert(total.take(0) =~= Seq::<u8>::empty());
    lemma_run(Seq::empty(), chunks);
    let whole = seq![total];
    assert(whole.drop_first() =~= Seq::<Seq<u8>>::empty());
    assert(concat(whole.drop_first()) =~= Seq::<u8>::empty());
    assert(concat(whole) =~= total);
    lemma_run(Seq::empty(), whole);
}

/// A head that does not end within the buffer's capacity, delivered in any
/// chunks that fill the buffer, is rejected as too large.
pub proof fn lemma_buffer_exhaustion(chunks: Seq<Seq<u8>>)
    requires
        concat(chunks).len() == READ_BUF_LEN,
        forall|k: int|
            0 <= k <= concat(chunks).len() ==> request_head_of(#[trigger] concat(chunks).take(k))
                == Some(None::<HeadView>),
    ensures
        run(Seq::empty(), chunks) == Verdict::TooLarge,
{
    let total = concat(chunks);
    assert(Seq::<u8>::empty() + total =~= total);
    assert(total.take(0) =~= Seq::<u8>::empty());
    assert(total.take(total.len() as int) =~= total);
    lemma_run(Seq::empty(), chunks);
}

/// When one read holds a complete head followed by `extra`, exactly `extra`
/// stays buffered, to be the first bytes of whatever follows the head.
pub proof fn lemma_leftover(head: Seq<u8>, extra: Seq<u8>)
    requires
        request_head_of(head + extra) matches Some(Some(h)) && h.0 == head.len(),
    ensures
        leftover_of(head + extra) == extra,
{
    assert((head + extra).subrange(head.len() as int, (head + extra).len() as int) =~= extra);
}

} // verus!
