//! The request-resilience engine: the retry decision machine around a
//! single logical GET, and the structured shape of a terminal HTTP error.
//!
//! The machine decides; the network call, the sleep and the parse of the
//! response body stay with the caller, which hands each outcome back in as
//! an `HttpEvent`.

use vstd::prelude::*;

use crate::json::Json;
use crate::json::Jv;
use crate::json::obj_get;
use crate::json::obj_get_field;
use crate::json::obj_set;
use crate::json::obj_put;

verus! {

/// Printable ASCII, the characters a secret could be made of.
pub open spec fn spec_is_graphic(c: char) -> bool {
    '!' <= c <= '~'
}

/// `s` with every printable ASCII character masked.
pub open spec fn spec_redact(s: Seq<char>) -> Seq<char> {
    Seq::new(s.len(), |i: int| if spec_is_graphic(s[i]) { '*' } else { s[i] })
}

/// Masks every printable ASCII character of a diagnostic, so that secret
/// material cannot leak into logs or error text.
pub fn redact(s: &str) -> (r: String)
    ensures
        r@ == spec_redact(s@),
    decreases s@.len(),
{
    let n = s.unicode_len();
    if n == 0 {
        let out = String::new();
        proof {
            assert(out@ =~= spec_redact(s@));
        }
        return out;
    }
    let c = s.get_char(0);
    let head: String = if '!' <= c && c <= '~' {
        "*".to_owned()
    } else {
        s.substring_char(0, 1).to_owned()
    };
    let tail = redact(s.substring_char(1, n));
    let out = head.concat(tail.as_str());
    proof {
        assert(s@.subrange(1, n as int) =~= s@.drop_first());
        if spec_is_graphic(s@[0]) {
            reveal_strlit("*");
            assert(head@ =~= seq!['*']);
        } else {
            assert(head@ =~= seq![s@[0]]);
        }
        assert(out@ =~= spec_redact(s@));
    }
    out
}

/// The retry configuration of one logical request.
pub struct RetryPolicy {
    /// How many retries may follow the first attempt.
    pub max_retries: u32,
    /// A caller-supplied retry delay in seconds, overriding any server hint.
    pub retry_after_override: Option<u64>,
}

/// What one attempt at the HTTP call came back with, as plain values.
pub enum HttpEvent {
    /// The transport failed: connection, DNS or timeout trouble.
    Transport { message: String },
    /// The server answered.
    Response {
        status: u16,
        /// The `Retry-After` header in seconds, where present and numeric.
        retry_after_secs: Option<u64>,
        /// The canonical reason phrase of the status, where known.
        reason: Option<String>,
        /// The `x-request-id` header, where present.
        request_id: Option<String>,
        /// The raw body text.
        body: String,
        /// The body parsed as JSON, where it parses.
        parsed: Option<Json>,
    },
}

/// What the caller must do next with a pending request.
pub enum RetryStep {
    /// A 2xx answer: the response body is the result.
    Succeed,
    /// Sleep this many milliseconds, then send again.
    RetryAfterMs { delay_ms: u64 },
    /// Give up on a transport failure; the message is redacted.
    FailTransport { message: String },
    /// Give up on an HTTP failure, with the structured error.
    FailHttp { error: Json },
}

/// 2xx.
pub open spec fn spec_is_success(status: u16) -> bool {
    200 <= status < 300
}

/// Rate limiting or a server-side failure: worth retrying.
pub open spec fn spec_is_retryable(status: u16) -> bool {
    status == 429 || (500 <= status < 600)
}

/// Seconds as milliseconds, saturating.
pub open spec fn spec_sat_ms(secs: u64) -> u64 {
    if secs > u64::MAX / 1000 {
        u64::MAX
    } else {
        (secs * 1000) as u64
    }
}

/// Seconds as milliseconds, saturating at the largest representable delay.
fn sat_ms(secs: u64) -> (r: u64)
    ensures
        r == spec_sat_ms(secs),
{
    if secs > u64::MAX / 1000 {
        u64::MAX
    } else {
        secs * 1000
    }
}

/// The structured error carried out of a failed HTTP exchange: status code
/// and reason always; `type` and `hint` where the body parsed to an object
/// holding them; the request id where the server sent one; the raw body
/// where it was non-empty.
pub open spec fn spec_http_error(
    code: u16,
    reason: Option<Seq<char>>,
    request_id: Option<Seq<char>>,
    body: Seq<char>,
    parsed: Option<Jv>,
) -> Jv {
    let fs = seq![
        ("code"@, Jv::Int(code as i64)),
        (
            "reason"@,
            Jv::Str(
                match reason {
                    Some(r) => r,
                    None => "error"@,
                },
            ),
        ),
    ];
    let fs = match parsed {
        Some(Jv::Obj(pf)) => {
            let fs = match obj_get(pf, "type"@) {
                Some(t) => fs.push(("type"@, t)),
                None => fs,
            };
            match obj_get(pf, "hint"@) {
                Some(h) => fs.push(("hint"@, h)),
                None => fs,
            }
        },
        _ => fs,
    };
    let fs = match request_id {
        Some(id) => fs.push(("request_id"@, Jv::Str(id))),
        None => fs,
    };
    if body.len() > 0 {
        Jv::Obj(fs.push(("body"@, Jv::Str(body))))
    } else {
        Jv::Obj(fs)
    }
}

/// Builds the structured error for a terminal HTTP failure.
pub fn build_http_error(
    code: u16,
    reason: &Option<String>,
    request_id: &Option<String>,
    body: &str,
    parsed: &Option<Json>,
) -> (r: Json)
    ensures
        r.jv() == spec_http_error(
            code,
            reason.deep_view(),
            request_id.deep_view(),
            body@,
            parsed.deep_view(),
        ),
{
    broadcast use crate::json::lemma_jv_obj;

    let mut fs: Vec<(String, Json)> = Vec::new();
    fs.push(("code".to_owned(), Json::Int(code as i64)));
    let reason_str: String = match reason {
        Some(r) => r.clone(),
        None => "error".to_owned(),
    };
    fs.push(("reason".to_owned(), Json::Str(reason_str)));
    match parsed {
        Some(p) => {
            match p {
                Json::Obj(pf) => {
                    match obj_get_field(pf, "type") {
                        Some(t) => {
                            fs.push(("type".to_owned(), t.deep_copy()));
                        },
                        None => {},
                    }
                    match obj_get_field(pf, "hint") {
                        Some(h) => {
                            fs.push(("hint".to_owned(), h.deep_copy()));
                        },
                        None => {},
                    }
                },
                _ => {},
            }
        },
        None => {},
    }
    match request_id {
        Some(id) => {
            fs.push(("request_id".to_owned(), Json::Str(id.clone())));
        },
        None => {},
    }
    if !body.is_empty() {
        fs.push(("body".to_owned(), Json::Str(body.to_owned())));
    }
    proof {
        assert(fs.deep_view() =~~= spec_http_error(
            code,
            reason.deep_view(),
            request_id.deep_view(),
            body@,
            parsed.deep_view(),
        )->Obj_0);
    }
    Json::Obj(fs)
}

/// Decides what follows one attempt: success returns, a transport failure
/// or a 429/5xx answer is retried while the budget allows (the delay taken
/// from the caller override, else the server hint, else the backoff
/// calculator), and anything else fails with the structured error.
/// A retry is handed out exactly while `attempt` is below the budget, so
/// the attempt counter never passes it.
pub fn retry_decide(policy: &RetryPolicy, attempt: u32, event: &HttpEvent) -> (r: RetryStep)
    ensures
        match *event {
            HttpEvent::Transport { message } => {
                if attempt < policy.max_retries {
                    r matches RetryStep::RetryAfterMs { delay_ms } && 100 <= delay_ms <= 5000
                        && crate::util::spec_backoff_exp(attempt as int + 1) <= delay_ms
                        && delay_ms <= crate::util::spec_backoff_exp(attempt as int + 1)
                        + crate::util::spec_backoff_exp(attempt as int + 1) / 2
                } else {
                    r matches RetryStep::FailTransport { message: m } && m@ == spec_redact(
                        message@,
                    )
                }
            },
            HttpEvent::Response {
                status,
                retry_after_secs,
                reason,
                request_id,
                body,
                parsed,
            } => {
                if spec_is_success(status) {
                    r is Succeed
                } else if spec_is_retryable(status) && attempt < policy.max_retries {
                    r matches RetryStep::RetryAfterMs { delay_ms } && (match policy
                        .retry_after_override {
                        Some(ov) => delay_ms == spec_sat_ms(ov),
                        None => match retry_after_secs {
                            Some(h) => delay_ms == spec_sat_ms(h),
                            None => 100 <= delay_ms <= 5000 && crate::util::spec_backoff_exp(
                                attempt as int + 1,
                            ) <= delay_ms && delay_ms <= crate::util::spec_backoff_exp(
                                attempt as int + 1,
                            ) + crate::util::spec_backoff_exp(attempt as int + 1) / 2,
                        },
                    })
                } else {
                    r matches RetryStep::FailHttp { error } && error.jv() == spec_http_error(
                        status,
                        reason.deep_view(),
                        request_id.deep_view(),
                        body@,
                        parsed.deep_view(),
                    )
                }
            },
        },
{
    match event {
        HttpEvent::Transport { message } => {
            if attempt < policy.max_retries {
                RetryStep::RetryAfterMs { delay_ms: crate::util::backoff_delay(attempt + 1) }
            } else {
                RetryStep::FailTransport { message: redact(message.as_str()) }
            }
        },
        HttpEvent::Response { status, retry_after_secs, reason, request_id, body, parsed } => {
            let st = *status;
            if 200 <= st && st < 300 {
                RetryStep::Succeed
            } else if (st == 429 || (500 <= st && st < 600)) && attempt < policy.max_retries {
                let delay_ms: u64 = match policy.retry_after_override {
                    Some(ov) => sat_ms(ov),
                    None => match retry_after_secs {
                        Some(h) => sat_ms(*h),
                        None => crate::util::backoff_delay(attempt + 1),
                    },
                };
                RetryStep::RetryAfterMs { delay_ms }
            } else {
                let error = build_http_error(st, reason, request_id, body.as_str(), parsed);
                RetryStep::FailHttp { error }
            }
        },
    }
}


/// Whether a response header name speaks of the API quota.
pub fn is_quota_header(k: &str) -> (r: bool)
    ensures
        r == (crate::text::spec_contains(k@, "limit"@) || crate::text::spec_contains(
            k@,
            "remaining"@,
        ) || crate::text::spec_contains(k@, "reset"@)),
{
    crate::text::str_contains(k, "limit") || crate::text::str_contains(k, "remaining")
        || crate::text::str_contains(k, "reset")
}

/// Where the aggregator's next request comes from: the caller's initial
/// request, a follow-up link taken from the last page, or nowhere.
pub enum Pending {
    Initial,
    Link(String),
    Done,
}

/// The mathematical shape of `Pending`.
pub enum PendV {
    Initial,
    Link(Seq<char>),
    Done,
}

impl Pending {
    /// The mathematical value of this state.
    pub open spec fn pv(self) -> PendV {
        match self {
            Pending::Initial => PendV::Initial,
            Pending::Link(s) => PendV::Link(s@),
            Pending::Done => PendV::Done,
        }
    }
}

/// The fields of an object document, and nothing of any other document.
pub open spec fn jv_fields(j: Jv) -> Seq<(Seq<char>, Jv)> {
    match j {
        Jv::Obj(fs) => fs,
        _ => Seq::empty(),
    }
}

/// Whether `k` is one of the source keys.
pub open spec fn is_source_key(keys: Seq<(Seq<char>, Seq<char>)>, k: Seq<char>) -> bool {
    exists|i: int| 0 <= i < keys.len() && (#[trigger] keys[i]).0 == k
}

/// The empty item array bound under each destination key, in order.
pub open spec fn spec_seed(keys: Seq<(Seq<char>, Seq<char>)>) -> Seq<(Seq<char>, Jv)> {
    crate::proj::obj_set_all(
        Seq::empty(),
        Seq::new(keys.len(), |i: int| (keys[i].1, Jv::Arr(Seq::empty()))),
    )
}

/// First-page metadata carry-over: every top-level field that is neither a
/// source key nor the next-page link, bound in order.
pub open spec fn copy_meta(
    acc: Seq<(Seq<char>, Jv)>,
    pf: Seq<(Seq<char>, Jv)>,
    keys: Seq<(Seq<char>, Seq<char>)>,
) -> Seq<(Seq<char>, Jv)>
    decreases pf.len(),
{
    if pf.len() == 0 {
        acc
    } else {
        copy_meta(
            if !is_source_key(keys, pf[0].0) && pf[0].0 != "next_page"@ {
                obj_set(acc, pf[0].0, pf[0].1)
            } else {
                acc
            },
            pf.drop_first(),
            keys,
        )
    }
}

/// The first `room` elements, or all of them where fewer remain.
pub open spec fn take_upto(es: Seq<Jv>, room: int) -> Seq<Jv> {
    if room >= es.len() {
        es
    } else {
        es.take(room)
    }
}

/// One source/destination pair absorbed: the page's array under the source
/// key appended to the aggregate's array under the destination key, cut at
/// the item limit. Where the page has no array under the source key, or
/// the aggregate holds no array under the destination key, nothing moves.
pub open spec fn absorb_pair(
    acc: Seq<(Seq<char>, Jv)>,
    collected: int,
    limit: int,
    pf: Seq<(Seq<char>, Jv)>,
    pair: (Seq<char>, Seq<char>),
) -> (Seq<(Seq<char>, Jv)>, int) {
    match obj_get(pf, pair.0) {
        Some(Jv::Arr(es)) => {
            match obj_get(acc, pair.1) {
                Some(Jv::Arr(cur)) => {
                    let added = take_upto(es, limit - collected);
                    (obj_set(acc, pair.1, Jv::Arr(cur + added)), collected + added.len())
                },
                _ => (acc, collected),
            }
        },
        _ => (acc, collected),
    }
}

/// Every pair absorbed, left to right.
pub open spec fn absorb_pairs(
    acc: Seq<(Seq<char>, Jv)>,
    collected: int,
    limit: int,
    pf: Seq<(Seq<char>, Jv)>,
    pairs: Seq<(Seq<char>, Seq<char>)>,
) -> (Seq<(Seq<char>, Jv)>, int)
    decreases pairs.len(),
{
    if pairs.len() == 0 {
        (acc, collected)
    } else {
        let step = absorb_pair(acc, collected, limit, pf, pairs[0]);
        absorb_pairs(step.0, step.1, limit, pf, pairs.drop_first())
    }
}

/// Where the next request comes from once a page is absorbed: nowhere once
/// a cap is reached; else the page's `next_page` link, where it is a
/// string that parses as an absolute URL; else nowhere.
pub open spec fn spec_next_pending(
    pf: Seq<(Seq<char>, Jv)>,
    collected: int,
    pages: int,
    limit: int,
    max_pages: int,
) -> PendV {
    if collected >= limit || pages >= max_pages {
        PendV::Done
    } else {
        match obj_get(pf, "next_page"@) {
            Some(Jv::Str(s)) => if crate::output::abs_url_query_pairs(s) is Some {
                PendV::Link(s)
            } else {
                PendV::Done
            },
            _ => PendV::Done,
        }
    }
}

/// The pagination aggregator: walks a multi-page result set page by page,
/// merging item arrays under destination keys and carrying the first
/// page's metadata over, until a cap is reached or the link chain ends.
/// The caller fetches what `pending` names and hands each page to
/// `absorb_page`; the first request is always issued, caps are checked
/// only after a page is absorbed.
pub struct Aggregator {
    /// The source/destination key pairs.
    pub item_keys: Vec<(String, String)>,
    /// The cap on collected items.
    pub limit: u32,
    /// The cap on fetched pages.
    pub max_pages: u32,
    /// The merged document so far.
    pub fields: Vec<(String, Json)>,
    /// Pages absorbed so far.
    pub pages: u32,
    /// Items collected so far.
    pub collected: u32,
    /// The next request, if any.
    pub pending: Pending,
}

impl Aggregator {
    /// The aggregator's internal consistency: the item count never passes
    /// the limit, and a pending follow-up exists only below the page cap.
    pub open spec fn wf(self) -> bool {
        &&& self.collected <= self.limit
        &&& (!(self.pending is Done) && self.pages > 0 ==> self.pages < self.max_pages)
    }

    /// Seeds the aggregate with an empty array under each destination key.
    /// An absent cap is no cap.
    #[verifier::loop_isolation(false)]
    pub fn new(item_keys: Vec<(String, String)>, limit: Option<u32>, max_pages: Option<u32>) -> (r:
        Aggregator)
        ensures
            r.item_keys == item_keys,
            r.limit == match limit {
                Some(l) => l,
                None => u32::MAX,
            },
            r.max_pages == match max_pages {
                Some(m) => m,
                None => u32::MAX,
            },
            r.fields.deep_view() == spec_seed(item_keys.deep_view()),
            r.pages == 0,
            r.collected == 0,
            r.pending is Initial,
            r.wf(),
    {
        let ghost keys = item_keys.deep_view();
        let ghost seeded = Seq::new(keys.len(), |i: int| (keys[i].1, Jv::Arr(Seq::empty())));
        let mut fields: Vec<(String, Json)> = Vec::new();
        let n = item_keys.len();
        let mut i: usize = 0;
        proof {
            assert(seeded.skip(0) =~= seeded);
        }
        while i < n
            invariant
                0 <= i <= n,
                crate::proj::obj_set_all(fields.deep_view(), seeded.skip(i as int)) == spec_seed(
                    keys,
                ),
            decreases n - i,
        {
            proof {
                assert(seeded.skip(i as int)[0] == seeded[i as int]);
                assert(seeded.skip(i as int).drop_first() =~= seeded.skip(i + 1));
            }
            let dest = item_keys[i].1.clone();
            let empty_items: Vec<Json> = Vec::new();
            proof {
                assert(Json::Arr(empty_items).jv()->Arr_0 =~= Seq::<Jv>::empty());
                assert(Json::Arr(empty_items).jv() == Jv::Arr(Seq::<Jv>::empty()));
            }
            obj_put(&mut fields, dest, Json::Arr(empty_items));
            i += 1;
        }
        proof {
            assert(seeded.skip(n as int) =~= Seq::<(Seq<char>, Jv)>::empty());
        }
        Aggregator {
            item_keys,
            limit: match limit {
                Some(l) => l,
                None => u32::MAX,
            },
            max_pages: match max_pages {
                Some(m) => m,
                None => u32::MAX,
            },
            fields,
            pages: 0,
            collected: 0,
            pending: Pending::Initial,
        }
    }

    /// Whether a request is still pending.
    pub fn wants_fetch(&self) -> (r: bool)
        ensures
            r == !(self.pending is Done),
    {
        match self.pending {
            Pending::Done => false,
            _ => true,
        }
    }

    /// The accumulated document.
    pub fn into_result(self) -> (r: Json)
        ensures
            r.jv() == Jv::Obj(self.fields.deep_view()),
    {
        broadcast use crate::json::lemma_jv_obj;

        Json::Obj(self.fields)
    }
}

/// With the item limit at zero a page moves no items: absorbing it leaves
/// the aggregate's fields exactly as they were, the count at zero, and —
/// since the zero limit is already reached — no further request pending.
/// With `new`'s contract (the first request pending) and `absorb_page`'s,
/// this is the zero-limit rule in general: one request is issued, nothing
/// is collected, and only the first page's metadata carry-over remains.
pub proof fn lemma_absorb_zero_limit(
    acc: Seq<(Seq<char>, Jv)>,
    pf: Seq<(Seq<char>, Jv)>,
    pairs: Seq<(Seq<char>, Seq<char>)>,
    pages: int,
    max_pages: int,
)
    ensures
        absorb_pairs(acc, 0, 0, pf, pairs).0 == acc,
        absorb_pairs(acc, 0, 0, pf, pairs).1 == 0,
        spec_next_pending(pf, 0, pages, 0, max_pages) == PendV::Done,
    decreases pairs.len(),
{
    if pairs.len() > 0 {
        match obj_get(pf, pairs[0].0) {
            Some(src) => {
                match src {
                    Jv::Arr(es) => {
                        match obj_get(acc, pairs[0].1) {
                            Some(dst) => {
                                match dst {
                                    Jv::Arr(cur) => {
                                        let added = take_upto(es, 0);
                                        assert(added =~= Seq::<Jv>::empty());
                                        assert(cur + added =~= cur);
                                        crate::json::lemma_obj_set_same(
                                            acc,
                                            pairs[0].1,
                                            Jv::Arr(cur),
                                        );
                                        assert(absorb_pair(acc, 0, 0, pf, pairs[0]) == (
                                            acc,
                                            0int,
                                        ));
                                    },
                                    _ => {},
                                }
                            },
                            None => {},
                        }
                    },
                    _ => {},
                }
            },
            None => {},
        }
        lemma_absorb_zero_limit(acc, pf, pairs.drop_first(), pages, max_pages);
    }
}

#[verifier::loop_isolation(false)]
fn is_source_exec(keys: &Vec<(String, String)>, k: &str) -> (r: bool)
    ensures
        r == is_source_key(keys.deep_view(), k@),
{
    let n = keys.len();
    let mut i: usize = 0;
    while i < n
        invariant
            0 <= i <= n,
            forall|j: int| 0 <= j < i ==> (#[trigger] keys.deep_view()[j]).0 != k@,
        decreases n - i,
    {
        if crate::text::str_eq(keys[i].0.as_str(), k) {
            proof {
                assert(keys.deep_view()[i as int].0 == k@);
            }
            return true;
        }
        proof {
            assert(keys.deep_view()[i as int].0 == keys@[i as int].0@);
        }
        i += 1;
    }
    false
}

impl Aggregator {
    /// Absorbs one fetched page: carries the first page's metadata over,
    /// appends the item arrays up to the limit, counts the page, and
    /// decides where the next request comes from.
    #[verifier::loop_isolation(false)]
    pub fn absorb_page(&mut self, page: &Json)
        requires
            old(self).wf(),
            !(old(self).pending is Done),
        ensures
            final(self).item_keys == old(self).item_keys,
            final(self).limit == old(self).limit,
            final(self).max_pages == old(self).max_pages,
            final(self).pages == old(self).pages + 1,
            ({
                let pf = jv_fields(page.jv());
                let keys = old(self).item_keys.deep_view();
                let base = if old(self).pages == 0 {
                    copy_meta(old(self).fields.deep_view(), pf, keys)
                } else {
                    old(self).fields.deep_view()
                };
                let stepped = absorb_pairs(
                    base,
                    old(self).collected as int,
                    old(self).limit as int,
                    pf,
                    keys,
                );
                &&& final(self).fields.deep_view() == stepped.0
                &&& final(self).collected == stepped.1
                &&& final(self).pending.pv() == spec_next_pending(
                    pf,
                    stepped.1,
                    old(self).pages + 1,
                    old(self).limit as int,
                    old(self).max_pages as int,
                )
            }),
            final(self).wf(),
    {
        broadcast use crate::json::lemma_jv_arr, crate::json::lemma_jv_obj;

        let ghost pf = jv_fields(page.jv());
        let ghost keys = old(self).item_keys.deep_view();

        if self.pages == 0 {
            match page {
                Json::Obj(pfv) => {
                    proof {
                        assert(pf =~= pfv.deep_view());
                        assert(pf.skip(0) =~= pf);
                    }
                    let n = pfv.len();
                    let mut i: usize = 0;
                    while i < n
                        invariant
                            0 <= i <= n,
                            self.item_keys == old(self).item_keys,
                            self.limit == old(self).limit,
                            self.max_pages == old(self).max_pages,
                            self.pages == old(self).pages,
                            self.collected == old(self).collected,
                            self.pending == old(self).pending,
                            copy_meta(self.fields.deep_view(), pf.skip(i as int), keys)
                                == copy_meta(old(self).fields.deep_view(), pf, keys),
                        decreases n - i,
                    {
                        proof {
                            assert(pf.skip(i as int)[0] == pf[i as int]);
                            assert(pf.skip(i as int).drop_first() =~= pf.skip(i + 1));
                            assert(pf[i as int] == (pfv@[i as int].0@, pfv@[i as int].1.jv()));
                        }
                        let keep = !is_source_exec(&self.item_keys, pfv[i].0.as_str())
                            && !crate::text::str_eq(pfv[i].0.as_str(), "next_page");
                        if keep {
                            let key = pfv[i].0.clone();
                            let val = pfv[i].1.deep_copy();
                            obj_put(&mut self.fields, key, val);
                        }
                        i += 1;
                    }
                    proof {
                        assert(pf.skip(n as int) =~= Seq::<(Seq<char>, Jv)>::empty());
                    }
                },
                _ => {
                    proof {
                        assert(pf =~= Seq::<(Seq<char>, Jv)>::empty());
                    }
                },
            }
        }
        let ghost base = self.fields.deep_view();
        let ghost c0 = self.collected as int;
        let ghost lim = self.limit as int;

        let np = self.item_keys.len();
        let mut idx: usize = 0;
        proof {
            assert(keys.skip(0) =~= keys);
        }
        while idx < np
            invariant
                0 <= idx <= np,
                self.item_keys == old(self).item_keys,
                self.limit == old(self).limit,
                self.max_pages == old(self).max_pages,
                self.pages == old(self).pages,
                self.pending == old(self).pending,
                self.collected <= self.limit,
                absorb_pairs(
                    self.fields.deep_view(),
                    self.collected as int,
                    lim,
                    pf,
                    keys.skip(idx as int),
                ) == absorb_pairs(base, c0, lim, pf, keys),
            decreases np - idx,
        {
            proof {
                assert(keys.skip(idx as int)[0] == keys[idx as int]);
                assert(keys.skip(idx as int).drop_first() =~= keys.skip(idx + 1));
                assert(keys[idx as int] == (
                    old(self).item_keys@[idx as int].0@,
                    old(self).item_keys@[idx as int].1@,
                ));
            }
            let in_key = self.item_keys[idx].0.clone();
            let out_key = self.item_keys[idx].1.clone();
            let ghost pair = keys[idx as int];
            match page {
                Json::Obj(pfv) => {
                    proof {
                        assert(pf =~= pfv.deep_view());
                    }
                    match obj_get_field(pfv, in_key.as_str()) {
                        Some(src) => {
                            match src {
                                Json::Arr(es) => {
                                    proof {
                                        assert(obj_get(pf, pair.0) == Some(
                                            Jv::Arr(es.deep_view()),
                                        ));
                                    }
                                    let mut newvec_opt: Option<Vec<Json>> = None;
                                    match obj_get_field(&self.fields, out_key.as_str()) {
                                        Some(d) => {
                                            match d {
                                                Json::Arr(_) => {
                                                    let d2 = d.deep_copy();
                                                    match d2 {
                                                        Json::Arr(v) => {
                                                            newvec_opt = Some(v);
                                                        },
                                                        _ => {
                                                            proof {
                                                                assert(false);
                                                            }
                                                        },
                                                    }
                                                },
                                                _ => {},
                                            }
                                        },
                                        None => {},
                                    }
                                    match newvec_opt {
                                        Some(mut newvec) => {
                                            let ghost curdv = newvec.deep_view();
                                            let ghost cnow = self.collected as int;
                                            proof {
                                                assert(obj_get(
                                                    self.fields.deep_view(),
                                                    pair.1,
                                                ) == Some(Jv::Arr(curdv)));
                                            }
                                            let room: u32 = self.limit - self.collected;
                                            let m = es.len();
                                            let mut j: usize = 0;
                                            let mut added: u32 = 0;
                                            proof {
                                                assert(newvec.deep_view() =~= curdv
                                                    + es.deep_view().take(0));
                                            }
                                            while j < m
                                                invariant
                                                    0 <= j <= m,
                                                    m == es@.len(),
                                                    added as int == if j as int <= room as int {
                                                        j as int
                                                    } else {
                                                        room as int
                                                    },
                                                    newvec.deep_view() == curdv
                                                        + es.deep_view().take(added as int),
                                                decreases m - j,
                                            {
                                                if added < room {
                                                    let ghost prevdv = newvec.deep_view();
                                                    newvec.push(es[j].deep_copy());
                                                    proof {
                                                        assert(newvec.deep_view() =~= prevdv.push(
                                                            es.deep_view()[j as int],
                                                        ));
                                                        assert(es.deep_view().take(added + 1)
                                                            =~= es.deep_view().take(
                                                            added as int,
                                                        ).push(es.deep_view()[added as int]));
                                                        assert(j == added);
                                                        assert(newvec.deep_view() =~= curdv
                                                            + es.deep_view().take(added + 1));
                                                    }
                                                    added = added + 1;
                                                }
                                                j += 1;
                                            }
                                            proof {
                                                if room as int >= m {
                                                    assert(es.deep_view().take(added as int)
                                                        =~= es.deep_view());
                                                }
                                                assert(room == lim - cnow);
                                                assert(es.deep_view().take(added as int)
                                                    == take_upto(es.deep_view(), lim - cnow));
                                            }
                                            let ghost accdv = self.fields.deep_view();
                                            obj_put(
                                                &mut self.fields,
                                                out_key.clone(),
                                                Json::Arr(newvec),
                                            );
                                            self.collected = self.collected + added;
                                            proof {
                                                let stepped = absorb_pair(
                                                    accdv,
                                                    cnow,
                                                    lim,
                                                    pf,
                                                    pair,
                                                );
                                                assert(self.fields.deep_view() == stepped.0);
                                                assert(self.collected as int == stepped.1);
                                            }
                                        },
                                        None => {
                                            proof {
                                                assert(absorb_pair(
                                                    self.fields.deep_view(),
                                                    self.collected as int,
                                                    lim,
                                                    pf,
                                                    pair,
                                                ) == (
                                                    self.fields.deep_view(),
                                                    self.collected as int,
                                                ));
                                            }
                                        },
                                    }
                                },
                                _ => {},
                            }
                        },
                        None => {},
                    }
                },
                _ => {},
            }
            idx += 1;
        }
        proof {
            assert(keys.skip(np as int) =~= Seq::<(Seq<char>, Seq<char>)>::empty());
        }

        self.pages = self.pages + 1;

        if self.collected >= self.limit || self.pages >= self.max_pages {
            self.pending = Pending::Done;
        } else {
            let mut next: Pending = Pending::Done;
            match page {
                Json::Obj(pfv) => {
                    match obj_get_field(pfv, "next_page") {
                        Some(v) => {
                            match v {
                                Json::Str(link) => {
                                    if crate::output::url_parses_absolutely(link.as_str()) {
                                        next = Pending::Link(link.clone());
                                    }
                                },
                                _ => {},
                            }
                        },
                        None => {},
                    }
                },
                _ => {},
            }
            self.pending = next;
        }
    }
}

} // verus!
