//! Limit windows read from the usage service's reply.
//!
//! The reply carries a forward-compatible list `limits` of `{kind, percent, resets_at}`
//! and, as a fallback, the named fields `five_hour` and `seven_day` of shape
//! `{utilization, resets_at}`. A window that just rolled over drops out of `limits`
//! while its named field stays, so the named fields are merged in unless they would
//! duplicate a window already read.

use vstd::prelude::*;
use vstd::string::*;
use crate::json::{Json, member, text_of, number_of, elements_of};
use crate::number::{scaled_number, read_scaled, lemma_scaled_in_range};
use crate::text::{same_text, push_char, to_ascii_upper, ascii_upper};

verus! {

/// The amount of a limit used, in units of 10⁻¹⁸ of the whole: `FULL` is 100 %.
pub const FULL: u64 = 1_000_000_000_000_000_000;

/// Two fallback readings whose used amounts differ by less than this (half a percent)
/// count as the same window, when they also reset in the same second.
pub const SAME_USE_TOLERANCE: u64 = 5_000_000_000_000_000;

/// One limit window as the panel shows it.
#[derive(Clone)]
pub struct LimitWindow {
    pub id: String,
    pub label: String,
    /// Amount used, `0..=FULL`.
    pub used: u64,
    /// Reset time, milliseconds since the Unix epoch; `None` when unknown.
    pub resets_at: Option<u64>,
    /// A pure count with no published denominator: the cell shows ~N.
    pub count: Option<i64>,
    /// The number is computed here, not published by the vendor.
    pub derived: bool,
}

/// The mathematical content of a `LimitWindow`.
pub struct WindowView {
    pub id: Seq<char>,
    pub label: Seq<char>,
    pub used: u64,
    pub resets_at: Option<u64>,
    pub count: Option<i64>,
    pub derived: bool,
}

impl View for LimitWindow {
    type V = WindowView;

    open spec fn view(&self) -> WindowView {
        WindowView {
            id: self.id@,
            label: self.label@,
            used: self.used,
            resets_at: self.resets_at,
            count: self.count,
            derived: self.derived,
        }
    }
}

/// The views of a sequence of windows.
pub open spec fn window_views(ws: Seq<LimitWindow>) -> Seq<WindowView> {
    ws.map_values(|w: LimitWindow| w@)
}

/// A name fit to show for the limit of kind `kind`.
pub open spec fn kind_label(kind: Seq<char>) -> Seq<char> {
    if kind == "session"@ {
        "Current session"@
    } else if kind == "seven_day"@ || kind == "weekly_all"@ {
        "Weekly (all models)"@
    } else if kind == "seven_day_opus"@ || kind == "weekly_opus"@ {
        "Weekly (Opus)"@
    } else if kind == "weekly_scoped"@ {
        "Weekly (model-scoped)"@
    } else {
        readable_kind(kind)
    }
}

/// An unknown kind made readable: underscores become spaces and an ASCII lowercase first
/// letter becomes uppercase.
pub open spec fn readable_kind(kind: Seq<char>) -> Seq<char> {
    let spaced = kind.map_values(|c: char| if c == '_' { ' ' } else { c });
    if spaced.len() == 0 {
        spaced
    } else {
        spaced.update(0, ascii_upper(spaced[0]))
    }
}

/// The label shown for a limit of kind `kind`.
pub fn label_for(kind: &str) -> (r: String)
    ensures
        r@ == kind_label(kind@),
{
    if same_text(kind, "session") {
        return String::from_str("Current session");
    }
    if same_text(kind, "seven_day") || same_text(kind, "weekly_all") {
        return String::from_str("Weekly (all models)");
    }
    if same_text(kind, "seven_day_opus") || same_text(kind, "weekly_opus") {
        return String::from_str("Weekly (Opus)");
    }
    if same_text(kind, "weekly_scoped") {
        return String::from_str("Weekly (model-scoped)");
    }
    let ghost spaced = kind@.map_values(|c: char| if c == '_' { ' ' } else { c });
    let n = kind.unicode_len();
    let mut out = String::new();
    let mut i: usize = 0;
    while i < n
        invariant
            n == kind@.len(),
            i <= n,
            spaced == kind@.map_values(|c: char| if c == '_' { ' ' } else { c }),
            out@.len() == i,
            forall|j: int| 0 < j < i ==> out@[j] == spaced[j],
            i > 0 ==> out@[0] == ascii_upper(spaced[0]),
        decreases n - i,
    {
        let c = kind.get_char(i);
        let spaced_c = if c == '_' { ' ' } else { c };
        let shown = if i == 0 { to_ascii_upper(spaced_c) } else { spaced_c };
        push_char(&mut out, shown);
        i += 1;
    }
    assert(out@ =~= readable_kind(kind@));
    out
}

/// One entry of the reply's `limits` list that names its kind and gives a numeric
/// percentage; `resets_at` is the reset time read from it, if any.
pub struct LimitReading {
    pub kind: String,
    /// The amount used that the percentage gives.
    pub used: u64,
    pub resets_at: Option<u64>,
}

/// One of the reply's named fallback fields that gives a numeric utilization.
pub struct FallbackReading {
    /// The amount used that the utilization gives.
    pub used: u64,
    pub resets_at: Option<u64>,
}

/// The amount used that the percentage written `text` gives: the exact fraction
/// `percent / 100` held to `0..=1`, in units of `10⁻¹⁸` with the rest dropped; nothing
/// when `text` is not a number.
pub open spec fn used_of(text: Seq<char>) -> Option<u64> {
    match scaled_number(text, 16, FULL as int) {
        Some((negative, v)) => Some(if negative { 0 } else { v as u64 }),
        None => None,
    }
}

/// The amount used that the percentage written `text` gives.
pub fn used_amount(text: &String) -> (r: Option<u64>)
    ensures
        r == used_of(text@),
{
    match read_scaled(text.as_str(), 16, FULL as u128) {
        Some((negative, v)) => Some(if negative { 0 } else { v as u64 }),
        None => None,
    }
}

/// The window that a `limits` entry describes.
pub open spec fn limit_window(r: LimitReading) -> WindowView {
    WindowView {
        id: r.kind@,
        label: kind_label(r.kind@),
        used: r.used,
        resets_at: r.resets_at,
        count: None,
        derived: false,
    }
}

/// The windows of the `limits` entries, in order; an entry without a reset time is not
/// shown.
pub open spec fn limit_windows(rs: Seq<LimitReading>) -> Seq<WindowView>
    decreases rs.len(),
{
    if rs.len() == 0 {
        Seq::empty()
    } else {
        let before = limit_windows(rs.drop_last());
        if rs.last().resets_at is Some {
            before.push(limit_window(rs.last()))
        } else {
            before
        }
    }
}

/// The window that a named fallback field describes, under the id `id`.
pub open spec fn fallback_window(id: Seq<char>, f: FallbackReading) -> WindowView {
    WindowView {
        id: id,
        label: kind_label(id),
        used: f.used,
        resets_at: f.resets_at,
        count: None,
        derived: false,
    }
}

/// The distance between two used amounts.
pub open spec fn use_distance(a: u64, b: u64) -> int {
    if a >= b {
        a - b
    } else {
        b - a
    }
}

/// The shown window `x` already stands for the fallback window `w`: its id is one of
/// the fallback's aliases, or it has the same label, or (when `w` has a reset time)
/// it resets in the same second with nearly the same use.
pub open spec fn duplicates(x: WindowView, w: WindowView, aliases: Seq<Seq<char>>) -> bool {
    ||| aliases.contains(x.id)
    ||| x.label == w.label
    ||| (w.resets_at is Some && x.resets_at is Some
        && x.resets_at->0 / 1000 == w.resets_at->0 / 1000
        && use_distance(x.used, w.used) < SAME_USE_TOLERANCE)
}

/// `ws` with the fallback field `reading` merged in under `id`: added at the end unless
/// it is missing or some window already shown duplicates it.
pub open spec fn merged(
    ws: Seq<WindowView>,
    reading: Option<FallbackReading>,
    id: Seq<char>,
    aliases: Seq<Seq<char>>,
) -> Seq<WindowView> {
    match reading {
        None => ws,
        Some(f) => if exists|i: int| 0 <= i < ws.len() && duplicates(ws[i], fallback_window(id, f), aliases) {
            ws
        } else {
            ws.push(fallback_window(id, f))
        },
    }
}

/// The windows of `ws` whose id is (`session` true) or is not (`session` false)
/// `"session"`, in their order.
pub open spec fn windows_where(ws: Seq<WindowView>, session: bool) -> Seq<WindowView>
    decreases ws.len(),
{
    if ws.len() == 0 {
        Seq::empty()
    } else {
        let before = windows_where(ws.drop_last(), session);
        if (ws.last().id == "session"@) == session {
            before.push(ws.last())
        } else {
            before
        }
    }
}

/// `ws` reordered so that the session window comes first, the order being kept
/// otherwise.
pub open spec fn session_first(ws: Seq<WindowView>) -> Seq<WindowView> {
    windows_where(ws, true) + windows_where(ws, false)
}

/// The ids that the `five_hour` fallback stands in for.
pub open spec fn five_hour_aliases() -> Seq<Seq<char>> {
    seq!["session"@, "five_hour"@]
}

/// The ids that the `seven_day` fallback stands in for.
pub open spec fn seven_day_aliases() -> Seq<Seq<char>> {
    seq!["seven_day"@, "weekly_all"@, "weekly"@]
}

/// The windows shown for a reply: those of `limits`, then the `five_hour` fallback as
/// the session window and the `seven_day` fallback, each unless duplicated; the session
/// window first.
pub open spec fn assembled(
    limits: Seq<LimitReading>,
    five_hour: Option<FallbackReading>,
    seven_day: Option<FallbackReading>,
) -> Seq<WindowView> {
    session_first(
        merged(
            merged(limit_windows(limits), five_hour, "session"@, five_hour_aliases()),
            seven_day,
            "seven_day"@,
            seven_day_aliases(),
        ),
    )
}

/// One of the reply's named fallback fields.
pub enum FallbackField {
    /// `five_hour`, shown as the session window.
    FiveHour,
    /// `seven_day`.
    SevenDay,
}

/// The id under which a fallback field is shown.
pub open spec fn fallback_id(field: FallbackField) -> Seq<char> {
    match field {
        FallbackField::FiveHour => "session"@,
        FallbackField::SevenDay => "seven_day"@,
    }
}

/// The ids that a fallback field stands in for.
pub open spec fn fallback_aliases(field: FallbackField) -> Seq<Seq<char>> {
    match field {
        FallbackField::FiveHour => five_hour_aliases(),
        FallbackField::SevenDay => seven_day_aliases(),
    }
}

/// Whether `id` is one of the ids that `field` stands in for.
fn is_alias(id: &str, field: &FallbackField) -> (r: bool)
    ensures
        r == fallback_aliases(*field).contains(id@),
{
    match field {
        FallbackField::FiveHour => {
            let r = same_text(id, "session") || same_text(id, "five_hour");
            proof {
                let a = five_hour_aliases();
                assert(a[0] == "session"@ && a[1] == "five_hour"@);
                if a.contains(id@) {
                    let k = choose|k: int| 0 <= k < a.len() && a[k] == id@;
                    assert(k == 0 || k == 1);
                }
            }
            r
        },
        FallbackField::SevenDay => {
            let r = same_text(id, "seven_day") || same_text(id, "weekly_all") || same_text(
                id,
                "weekly",
            );
            proof {
                let a = seven_day_aliases();
                assert(a[0] == "seven_day"@ && a[1] == "weekly_all"@ && a[2] == "weekly"@);
                if a.contains(id@) {
                    let k = choose|k: int| 0 <= k < a.len() && a[k] == id@;
                    assert(k == 0 || k == 1 || k == 2);
                }
            }
            r
        },
    }
}

/// Whether the shown window `x` already stands for the fallback window `w` of `field`.
fn is_duplicate(x: &LimitWindow, w: &LimitWindow, field: &FallbackField) -> (r: bool)
    ensures
        r == duplicates(x@, w@, fallback_aliases(*field)),
{
    if is_alias(x.id.as_str(), field) {
        return true;
    }
    if x.label == w.label {
        return true;
    }
    match (w.resets_at, x.resets_at) {
        (Some(wr), Some(xr)) => {
            let distance = if x.used >= w.used {
                x.used - w.used
            } else {
                w.used - x.used
            };
            xr / 1000 == wr / 1000 && distance < SAME_USE_TOLERANCE
        },
        _ => false,
    }
}

/// The windows of the `limits` entries that have a reset time, in order.
pub fn limit_windows_of(readings: &Vec<LimitReading>) -> (r: Vec<LimitWindow>)
    ensures
        window_views(r@) == limit_windows(readings@),
{
    let mut out: Vec<LimitWindow> = Vec::new();
    let mut i: usize = 0;
    while i < readings.len()
        invariant
            i <= readings@.len(),
            window_views(out@) == limit_windows(readings@.take(i as int)),
        decreases readings@.len() - i,
    {
        let r = &readings[i];
        proof {
            assert(readings@.take(i + 1).drop_last() =~= readings@.take(i as int));
            assert(readings@.take(i + 1).last() == readings@[i as int]);
        }
        if r.resets_at.is_some() {
            let w = LimitWindow {
                id: r.kind.clone(),
                label: label_for(r.kind.as_str()),
                used: r.used,
                resets_at: r.resets_at,
                count: None,
                derived: false,
            };
            let ghost before = out@;
            out.push(w);
            assert(window_views(out@) =~= window_views(before).push(w@));
        }
        i += 1;
    }
    assert(readings@.take(readings@.len() as int) =~= readings@);
    out
}

/// Merges the fallback field `field`, if it was read, into the shown windows.
pub fn merge_fallback(out: &mut Vec<LimitWindow>, reading: &Option<FallbackReading>, field: FallbackField)
    ensures
        window_views(final(out)@) == merged(window_views(old(out)@), *reading, fallback_id(field), fallback_aliases(field)),
{
    let f = match reading {
        Some(f) => f,
        None => return,
    };
    let id = match field {
        FallbackField::FiveHour => "session",
        FallbackField::SevenDay => "seven_day",
    };
    let w = LimitWindow {
        id: String::from_str(id),
        label: label_for(id),
        used: f.used,
        resets_at: f.resets_at,
        count: None,
        derived: false,
    };
    let ghost ws = window_views(out@);
    assert(w@ == fallback_window(fallback_id(field), *f));
    let mut i: usize = 0;
    while i < out.len()
        invariant
            i <= out@.len(),
            ws == window_views(out@),
            w@ == fallback_window(fallback_id(field), *f),
            *reading == Some(*f),
            forall|j: int| 0 <= j < i ==> !duplicates(#[trigger] ws[j], w@, fallback_aliases(field)),
        decreases out@.len() - i,
    {
        if is_duplicate(&out[i], &w, &field) {
            assert(duplicates(ws[i as int], fallback_window(fallback_id(field), *f), fallback_aliases(field)));
            return;
        }
        i += 1;
    }
    let ghost before = out@;
    out.push(w);
    assert(window_views(out@) =~= window_views(before).push(w@));
}

/// `ws` reordered so that the session window comes first, the order being kept
/// otherwise.
pub fn sessions_first(ws: Vec<LimitWindow>) -> (r: Vec<LimitWindow>)
    ensures
        window_views(r@) == session_first(window_views(ws@)),
{
    let ghost vs = window_views(ws@);
    let mut rest = ws;
    let mut first: Vec<LimitWindow> = Vec::new();
    let mut others: Vec<LimitWindow> = Vec::new();
    let ghost mut k: int = 0;
    while rest.len() > 0
        invariant
            0 <= k <= vs.len(),
            rest@.len() == vs.len() - k,
            window_views(rest@) == vs.skip(k),
            window_views(first@) == windows_where(vs.take(k), true),
            window_views(others@) == windows_where(vs.take(k), false),
        decreases rest@.len(),
    {
        let ghost before_rest = rest@;
        let w = rest.remove(0);
        proof {
            assert(window_views(before_rest)[0] == w@);
            assert(vs.skip(k)[0] == vs[k]);
            assert(vs.take(k + 1).drop_last() =~= vs.take(k));
            assert(vs.take(k + 1).last() == vs[k]);
            assert forall|j: int| 0 <= j < rest@.len() implies window_views(rest@)[j] == vs.skip(k + 1)[j] by {
                assert(rest@[j] == before_rest[j + 1]);
                assert(window_views(before_rest)[j + 1] == vs.skip(k)[j + 1]);
            }
            assert(window_views(rest@) =~= vs.skip(k + 1));
        }
        let ghost before_first = first@;
        let ghost before_others = others@;
        if same_text(w.id.as_str(), "session") {
            first.push(w);
            assert(window_views(first@) =~= window_views(before_first).push(w@));
        } else {
            others.push(w);
            assert(window_views(others@) =~= window_views(before_others).push(w@));
        }
        proof {
            k = k + 1;
        }
    }
    proof {
        assert(vs.skip(k).len() == 0);
        assert(vs.take(k) =~= vs);
    }
    let ghost before_first = first@;
    let ghost before_others = others@;
    first.append(&mut others);
    assert(window_views(first@) =~= window_views(before_first) + window_views(before_others));
    first
}

/// The windows shown for a reply, from what was read of it: the `limits` entries, and
/// the `five_hour` and `seven_day` fallback fields.
pub fn assemble_windows(
    limits: &Vec<LimitReading>,
    five_hour: &Option<FallbackReading>,
    seven_day: &Option<FallbackReading>,
) -> (r: Vec<LimitWindow>)
    ensures
        window_views(r@) == assembled(limits@, *five_hour, *seven_day),
{
    let mut out = limit_windows_of(limits);
    merge_fallback(&mut out, five_hour, FallbackField::FiveHour);
    merge_fallback(&mut out, seven_day, FallbackField::SevenDay);
    sessions_first(out)
}

/// The instant, in milliseconds since the Unix epoch, that chrono's RFC 3339 parser
/// reads in `s`; nothing when the parser refuses `s`.
pub uninterp spec fn rfc3339_millis(s: Seq<char>) -> Option<i64>;

/// `chrono::DateTime::parse_from_rfc3339`, with the parsed date-time given as its
/// `timestamp_millis`. Trusted to return `rfc3339_millis(s@)`, a function of the text
/// alone; which texts the parser accepts, and what instant it reads, is left unsaid.
#[verifier::external_body]
fn parse_rfc3339_millis(s: &str) -> (r: Option<i64>)
    ensures
        r == rfc3339_millis(s@),
{
    match chrono::DateTime::parse_from_rfc3339(s) {
        Ok(d) => Some(d.timestamp_millis()),
        Err(_) => None,
    }
}

/// A reset time from the parsed instant: an instant before the epoch counts as the epoch.
pub open spec fn reset_millis(parsed: Option<i64>) -> Option<u64> {
    match parsed {
        Some(ms) => Some(if ms < 0 { 0 } else { ms as u64 }),
        None => None,
    }
}

/// The reset time that a `resets_at` value gives: an RFC 3339 string that parses.
pub open spec fn reset_of(v: Option<Json>) -> Option<u64> {
    match text_of(v) {
        Some(s) => reset_millis(rfc3339_millis(s@)),
        None => None,
    }
}

/// The reset time from the instant that the RFC 3339 parser read, if it read one.
pub fn reset_from_millis(parsed: Option<i64>) -> (r: Option<u64>)
    ensures
        r == reset_millis(parsed),
{
    match parsed {
        Some(ms) => Some(if ms < 0 { 0 } else { ms as u64 }),
        None => None,
    }
}

/// The reset time that the value `v` gives.
pub fn parse_reset(v: &Json) -> (r: Option<u64>)
    ensures
        r == reset_of(Some(*v)),
{
    match v.as_text() {
        Some(s) => reset_from_millis(parse_rfc3339_millis(s.as_str())),
        None => None,
    }
}

/// The reset time that the member `resets_at` of `v` gives.
fn member_reset(v: &Json) -> (r: Option<u64>)
    ensures
        r == reset_of(member(*v, "resets_at"@)),
{
    match v.get("resets_at") {
        Some(x) => parse_reset(x),
        None => None,
    }
}

/// What a `limits` entry gives, if it names its kind and gives a numeric percentage.
pub open spec fn limit_reading(l: Json) -> Option<LimitReading> {
    match (text_of(member(l, "kind"@)), number_of(member(l, "percent"@))) {
        (Some(kind), Some(percent)) => match used_of(percent@) {
            Some(used) => Some(
                LimitReading { kind: kind, used: used, resets_at: reset_of(member(l, "resets_at"@)) },
            ),
            None => None,
        },
        _ => None,
    }
}

/// What the entries `es` of `limits` give, in order.
pub open spec fn limit_readings(es: Seq<Json>) -> Seq<LimitReading>
    decreases es.len(),
{
    if es.len() == 0 {
        Seq::empty()
    } else {
        let before = limit_readings(es.drop_last());
        match limit_reading(es.last()) {
            Some(r) => before.push(r),
            None => before,
        }
    }
}

/// What the reply's `limits` list gives; nothing when it is missing or not a list.
pub open spec fn reply_limit_readings(v: Json) -> Seq<LimitReading> {
    match elements_of(member(v, "limits"@)) {
        Some(es) => limit_readings(es),
        None => Seq::empty(),
    }
}

/// The name of a fallback field in the reply.
pub open spec fn fallback_name(field: FallbackField) -> Seq<char> {
    match field {
        FallbackField::FiveHour => "five_hour"@,
        FallbackField::SevenDay => "seven_day"@,
    }
}

/// What the reply's fallback field gives, if it is there with a numeric utilization.
pub open spec fn reply_fallback(v: Json, field: FallbackField) -> Option<FallbackReading> {
    match member(v, fallback_name(field)) {
        Some(w) => match number_of(member(w, "utilization"@)) {
            Some(u) => match used_of(u@) {
                Some(used) => Some(FallbackReading { used: used, resets_at: reset_of(member(w, "resets_at"@)) }),
                None => None,
            },
            None => None,
        },
        None => None,
    }
}

/// What the reply's `limits` list gives.
pub fn limit_readings_of(v: &Json) -> (r: Vec<LimitReading>)
    ensures
        r@ == reply_limit_readings(*v),
{
    let mut out: Vec<LimitReading> = Vec::new();
    let es = match v.get("limits") {
        Some(l) => match l.as_array() {
            Some(es) => es,
            None => return out,
        },
        None => return out,
    };
    let mut i: usize = 0;
    while i < es.len()
        invariant
            i <= es@.len(),
            out@ == limit_readings(es@.take(i as int)),
        decreases es@.len() - i,
    {
        let l = &es[i];
        proof {
            assert(es@.take(i + 1).drop_last() =~= es@.take(i as int));
            assert(es@.take(i + 1).last() == es@[i as int]);
        }
        let kind = match l.get("kind") {
            Some(k) => k.as_text(),
            None => None,
        };
        let percent = match l.get("percent") {
            Some(p) => match p.as_number() {
                Some(t) => used_amount(t),
                None => None,
            },
            None => None,
        };
        match (kind, percent) {
            (Some(k), Some(p)) => {
                out.push(LimitReading { kind: k.clone(), used: p, resets_at: member_reset(l) });
            },
            _ => {},
        }
        i += 1;
    }
    assert(es@.take(es@.len() as int) =~= es@);
    out
}

/// What the reply's fallback field `field` gives.
pub fn fallback_reading_of(v: &Json, field: FallbackField) -> (r: Option<FallbackReading>)
    ensures
        r == reply_fallback(*v, field),
{
    let name = match field {
        FallbackField::FiveHour => "five_hour",
        FallbackField::SevenDay => "seven_day",
    };
    let w = match v.get(name) {
        Some(w) => w,
        None => return None,
    };
    let u = match w.get("utilization") {
        Some(u) => match u.as_number() {
            Some(t) => used_amount(t),
            None => None,
        },
        None => None,
    };
    match u {
        Some(u) => Some(FallbackReading { used: u, resets_at: member_reset(w) }),
        None => None,
    }
}

/// The windows that the usage service's reply `v` describes.
pub fn parse_response(v: &Json) -> (r: Vec<LimitWindow>)
    ensures
        window_views(r@) == assembled(
            reply_limit_readings(*v),
            reply_fallback(*v, FallbackField::FiveHour),
            reply_fallback(*v, FallbackField::SevenDay),
        ),
{
    let limits = limit_readings_of(v);
    let five_hour = fallback_reading_of(v, FallbackField::FiveHour);
    let seven_day = fallback_reading_of(v, FallbackField::SevenDay);
    assemble_windows(&limits, &five_hour, &seven_day)
}

/// What the panel knows of the usage limits.
#[derive(Clone)]
pub struct UsageSnapshot {
    /// `ok`, `stale`, `needsAuth`, `backoff` or `error`.
    pub status: String,
    pub windows: Vec<LimitWindow>,
    /// When the windows were read, milliseconds since the Unix epoch.
    pub fetched_at: u64,
    pub note: String,
    /// No request is made before this time, milliseconds since the Unix epoch.
    pub backoff_until: u64,
}

/// The mathematical content of a `UsageSnapshot`.
pub struct SnapshotView {
    pub status: Seq<char>,
    pub windows: Seq<WindowView>,
    pub fetched_at: u64,
    pub note: Seq<char>,
    pub backoff_until: u64,
}

impl View for UsageSnapshot {
    type V = SnapshotView;

    open spec fn view(&self) -> SnapshotView {
        SnapshotView {
            status: self.status@,
            windows: window_views(self.windows@),
            fetched_at: self.fetched_at,
            note: self.note@,
            backoff_until: self.backoff_until,
        }
    }
}

/// The snapshot of a panel that knows nothing yet.
pub open spec fn blank_snapshot() -> SnapshotView {
    SnapshotView {
        status: Seq::empty(),
        windows: Seq::empty(),
        fetched_at: 0,
        note: Seq::empty(),
        backoff_until: 0,
    }
}

impl Default for UsageSnapshot {
    fn default() -> (r: UsageSnapshot)
        ensures
            r@ == blank_snapshot(),
    {
        let r = UsageSnapshot {
            status: String::new(),
            windows: Vec::new(),
            fetched_at: 0,
            note: String::new(),
            backoff_until: 0,
        };
        assert(window_views(r.windows@) =~= Seq::<WindowView>::empty());
        r
    }
}

/// The snapshot that a restart starts from, given the one stored before (`None` when
/// there was none or it could not be read): an old reading is labelled stale.
pub open spec fn restored(stored: Option<SnapshotView>) -> SnapshotView {
    match stored {
        None => blank_snapshot(),
        Some(s) => if s.windows.len() > 0 {
            SnapshotView { status: "stale"@, ..s }
        } else {
            s
        },
    }
}

/// The snapshot to start from after a restart, from the one stored before.
pub fn load_persisted(stored: Option<UsageSnapshot>) -> (r: UsageSnapshot)
    ensures
        r@ == restored(
            match stored {
                Some(s) => Some(s@),
                None => None,
            },
        ),
{
    match stored {
        None => UsageSnapshot::default(),
        Some(mut s) => {
            if s.windows.len() > 0 {
                s.status = String::from_str("stale");
            }
            s
        },
    }
}

proof fn lemma_windows_where(ws: Seq<WindowView>, session: bool)
    ensures
        windows_where(ws, session).len() <= ws.len(),
        forall|i: int| 0 <= i < windows_where(ws, session).len() ==> {
            &&& (windows_where(ws, session)[i].id == "session"@) == session
            &&& exists|j: int| 0 <= j < ws.len() && ws[j] == #[trigger] windows_where(ws, session)[i]
        },
        forall|j: int| 0 <= j < ws.len() && (ws[j].id == "session"@) == session
            ==> windows_where(ws, session).contains(#[trigger] ws[j]),
    decreases ws.len(),
{
    if ws.len() > 0 {
        let before = ws.drop_last();
        lemma_windows_where(before, session);
        let w = windows_where(ws, session);
        assert forall|i: int| 0 <= i < w.len() implies {
            &&& (w[i].id == "session"@) == session
            &&& exists|j: int| 0 <= j < ws.len() && ws[j] == #[trigger] w[i]
        } by {
            if i < windows_where(before, session).len() {
                let j = choose|j: int| 0 <= j < before.len() && before[j] == windows_where(before, session)[i];
                assert(ws[j] == w[i]);
            } else {
                assert(ws[ws.len() - 1] == w[i]);
            }
        }
        assert forall|j: int| 0 <= j < ws.len() && (ws[j].id == "session"@) == session implies w.contains(#[trigger] ws[j]) by {
            if j < ws.len() - 1 {
                assert(before[j] == ws[j]);
                let k = choose|k: int| 0 <= k < windows_where(before, session).len() && windows_where(before, session)[k] == before[j];
                assert(w[k] == ws[j]);
            } else {
                assert(w[w.len() - 1] == ws[j]);
            }
        }
    }
}

proof fn lemma_windows_where_split(ws: Seq<WindowView>)
    ensures
        windows_where(ws, true).len() + windows_where(ws, false).len() == ws.len(),
    decreases ws.len(),
{
    if ws.len() > 0 {
        lemma_windows_where_split(ws.drop_last());
    }
}

/// The session window comes first: in the reordered windows no window other than the
/// session window stands before a session window.
pub proof fn law_session_first_order(ws: Seq<WindowView>, i: int, j: int)
    requires
        0 <= i < j < session_first(ws).len(),
        session_first(ws)[j].id == "session"@,
    ensures
        session_first(ws)[i].id == "session"@,
{
    lemma_windows_where(ws, true);
    lemma_windows_where(ws, false);
    let t = windows_where(ws, true);
    if j >= t.len() {
        assert(session_first(ws)[j] == windows_where(ws, false)[j - t.len()]);
    }
    if i < t.len() {
        assert(session_first(ws)[i] == t[i]);
    } else {
        assert(session_first(ws)[j] == windows_where(ws, false)[j - t.len()]);
    }
}

proof fn lemma_windows_where_multiset(ws: Seq<WindowView>)
    ensures
        windows_where(ws, true).to_multiset().add(windows_where(ws, false).to_multiset())
            =~= ws.to_multiset(),
    decreases ws.len(),
{
    broadcast use vstd::multiset::group_multiset_axioms, vstd::multiset::group_multiset_properties, vstd::seq_lib::group_to_multiset_ensures;

    if ws.len() == 0 {
        assert(windows_where(ws, true).to_multiset() =~= vstd::multiset::Multiset::empty());
        assert(windows_where(ws, false).to_multiset() =~= vstd::multiset::Multiset::empty());
        assert(ws.to_multiset() =~= vstd::multiset::Multiset::empty());
    } else {
        let before = ws.drop_last();
        lemma_windows_where_multiset(before);
        assert(before.push(ws.last()) =~= ws);
    }
}

/// Reordering the session window first keeps every window: the same windows, as
/// many times each, and each of them one of the windows given.
pub proof fn law_session_first_keeps_windows(ws: Seq<WindowView>)
    ensures
        session_first(ws).to_multiset() == ws.to_multiset(),
        session_first(ws).len() == ws.len(),
        forall|i: int| 0 <= i < ws.len() ==> session_first(ws).contains(#[trigger] ws[i]),
        forall|i: int| 0 <= i < ws.len() ==> ws.contains(#[trigger] session_first(ws)[i]),
{
    lemma_windows_where(ws, true);
    lemma_windows_where(ws, false);
    lemma_windows_where_split(ws);
    lemma_windows_where_multiset(ws);
    vstd::seq_lib::lemma_multiset_commutative(windows_where(ws, true), windows_where(ws, false));
    let t = windows_where(ws, true);
    let f = windows_where(ws, false);
    let r = session_first(ws);
    assert forall|i: int| 0 <= i < ws.len() implies r.contains(#[trigger] ws[i]) by {
        if ws[i].id == "session"@ {
            let k = choose|k: int| 0 <= k < t.len() && t[k] == ws[i];
            assert(r[k] == ws[i]);
        } else {
            let k = choose|k: int| 0 <= k < f.len() && f[k] == ws[i];
            assert(r[t.len() + k] == ws[i]);
        }
    }
    assert forall|i: int| 0 <= i < ws.len() implies ws.contains(#[trigger] r[i]) by {
        if i < t.len() {
            assert(r[i] == t[i]);
            let j = choose|j: int| 0 <= j < ws.len() && ws[j] == t[i];
        } else {
            assert(r[i] == f[i - t.len()]);
            let j = choose|j: int| 0 <= j < ws.len() && ws[j] == f[i - t.len()];
        }
    }
}

proof fn lemma_limit_windows(rs: Seq<LimitReading>)
    ensures
        limit_windows(rs).len() <= rs.len(),
        forall|i: int| 0 <= i < limit_windows(rs).len() ==> (#[trigger] limit_windows(rs)[i]).resets_at is Some,
        (forall|j: int| 0 <= j < rs.len() ==> (#[trigger] rs[j]).used <= FULL) ==> forall|i: int|
            0 <= i < limit_windows(rs).len() ==> (#[trigger] limit_windows(rs)[i]).used <= FULL,
    decreases rs.len(),
{
    if rs.len() > 0 {
        lemma_limit_windows(rs.drop_last());
        if forall|j: int| 0 <= j < rs.len() ==> (#[trigger] rs[j]).used <= FULL {
            assert forall|j: int| 0 <= j < rs.drop_last().len() implies (#[trigger] rs.drop_last()[j]).used <= FULL by {
                assert(rs.drop_last()[j] == rs[j]);
            }
            assert(rs[rs.len() - 1].used <= FULL);
        }
    }
}

proof fn lemma_merged(ws: Seq<WindowView>, reading: Option<FallbackReading>, id: Seq<char>, aliases: Seq<Seq<char>>)
    ensures
        ws.len() <= merged(ws, reading, id, aliases).len() <= ws.len() + 1,
        (forall|i: int| 0 <= i < ws.len() ==> (#[trigger] ws[i]).used <= FULL)
            && (reading matches Some(f) ==> f.used <= FULL) ==> forall|i: int|
            0 <= i < merged(ws, reading, id, aliases).len() ==> (#[trigger] merged(ws, reading, id, aliases)[i]).used <= FULL,
{
}

proof fn lemma_used_of(t: Seq<char>)
    ensures
        used_of(t) matches Some(u) ==> u <= FULL,
{
    lemma_scaled_in_range(t, 16, FULL as int);
}

proof fn lemma_reply_readings(v: Json)
    ensures
        forall|j: int| 0 <= j < reply_limit_readings(v).len() ==> (#[trigger] reply_limit_readings(v)[j]).used <= FULL,
        reply_fallback(v, FallbackField::FiveHour) matches Some(f) ==> f.used <= FULL,
        reply_fallback(v, FallbackField::SevenDay) matches Some(f) ==> f.used <= FULL,
{
    if let Some(es) = elements_of(member(v, "limits"@)) {
        lemma_limit_readings(es);
    }
    if let Some(w) = member(v, "five_hour"@) {
        if let Some(u) = number_of(member(w, "utilization"@)) {
            lemma_used_of(u@);
        }
    }
    if let Some(w) = member(v, "seven_day"@) {
        if let Some(u) = number_of(member(w, "utilization"@)) {
            lemma_used_of(u@);
        }
    }
}

proof fn lemma_limit_readings(es: Seq<Json>)
    ensures
        forall|j: int| 0 <= j < limit_readings(es).len() ==> (#[trigger] limit_readings(es)[j]).used <= FULL,
    decreases es.len(),
{
    if es.len() > 0 {
        lemma_limit_readings(es.drop_last());
        if let Some(t) = number_of(member(es.last(), "percent"@)) {
            lemma_used_of(t@);
        }
    }
}

/// Every window shown for a reply has its use within 0 %..=100 %, whatever percentage
/// the reply gave.
pub proof fn law_shown_use_in_range(v: Json, i: int)
    requires
        0 <= i < assembled(
            reply_limit_readings(v),
            reply_fallback(v, FallbackField::FiveHour),
            reply_fallback(v, FallbackField::SevenDay),
        ).len(),
    ensures
        assembled(
            reply_limit_readings(v),
            reply_fallback(v, FallbackField::FiveHour),
            reply_fallback(v, FallbackField::SevenDay),
        )[i].used <= FULL,
{
    let limits = reply_limit_readings(v);
    let five_hour = reply_fallback(v, FallbackField::FiveHour);
    let seven_day = reply_fallback(v, FallbackField::SevenDay);
    lemma_reply_readings(v);
    let lw = limit_windows(limits);
    lemma_limit_windows(limits);
    let m1 = merged(lw, five_hour, "session"@, five_hour_aliases());
    lemma_merged(lw, five_hour, "session"@, five_hour_aliases());
    let m2 = merged(m1, seven_day, "seven_day"@, seven_day_aliases());
    lemma_merged(m1, seven_day, "seven_day"@, seven_day_aliases());
    law_session_first_keeps_windows(m2);
    let r = assembled(limits, five_hour, seven_day);
    assert(m2.contains(r[i]));
    let j = choose|j: int| 0 <= j < m2.len() && m2[j] == r[i];
}

/// A `limits` entry is shown only with a reset time: every window made from the list
/// has one, and there are no more of them than entries.
pub proof fn law_limit_windows_have_reset(rs: Seq<LimitReading>, i: int)
    requires
        0 <= i < limit_windows(rs).len(),
    ensures
        limit_windows(rs)[i].resets_at is Some,
        limit_windows(rs).len() <= rs.len(),
{
    lemma_limit_windows(rs);
}

/// A fallback field adds one window at most, and none when a window already shown
/// has one of the ids that it stands in for.
pub proof fn law_fallback_yields(
    ws: Seq<WindowView>,
    reading: Option<FallbackReading>,
    id: Seq<char>,
    aliases: Seq<Seq<char>>,
)
    ensures
        ws.len() <= merged(ws, reading, id, aliases).len() <= ws.len() + 1,
        (exists|i: int| 0 <= i < ws.len() && aliases.contains(#[trigger] ws[i].id))
            ==> merged(ws, reading, id, aliases) == ws,
{
    if exists|i: int| 0 <= i < ws.len() && aliases.contains(#[trigger] ws[i].id) {
        let i = choose|i: int| 0 <= i < ws.len() && aliases.contains(#[trigger] ws[i].id);
        if let Some(f) = reading {
            assert(duplicates(ws[i], fallback_window(id, f), aliases));
        }
    }
}

/// A reply shows its `limits` windows plus at most the two fallback windows.
pub proof fn law_shown_window_count(
    limits: Seq<LimitReading>,
    five_hour: Option<FallbackReading>,
    seven_day: Option<FallbackReading>,
)
    ensures
        limit_windows(limits).len() <= assembled(limits, five_hour, seven_day).len()
            <= limit_windows(limits).len() + 2,
{
    let lw = limit_windows(limits);
    let m1 = merged(lw, five_hour, "session"@, five_hour_aliases());
    lemma_merged(lw, five_hour, "session"@, five_hour_aliases());
    let m2 = merged(m1, seven_day, "seven_day"@, seven_day_aliases());
    lemma_merged(m1, seven_day, "seven_day"@, seven_day_aliases());
    law_session_first_keeps_windows(m2);
}

/// An unknown kind is labelled with the kind itself, made readable: as many
/// characters, no underscore left, every other character kept but for the first
/// letter's case.
pub proof fn law_unknown_kind_label(kind: Seq<char>)
    requires
        kind != "session"@,
        kind != "seven_day"@,
        kind != "weekly_all"@,
        kind != "seven_day_opus"@,
        kind != "weekly_opus"@,
        kind != "weekly_scoped"@,
    ensures
        kind_label(kind).len() == kind.len(),
        forall|i: int| 0 <= i < kind.len() ==> kind_label(kind)[i] != '_',
        forall|i: int| 0 < i < kind.len() && kind[i] != '_' ==> kind_label(kind)[i] == kind[i],
{
    let spaced = kind.map_values(|c: char| if c == '_' { ' ' } else { c });
    assert forall|i: int| 0 <= i < kind.len() implies kind_label(kind)[i] != '_' by {
        if i == 0 {
            assert(spaced[0] != '_');
        }
    }
}

/// Whether a `limits` entry has a reset time.
pub open spec fn with_reset(r: LimitReading) -> bool {
    r.resets_at is Some
}

/// The entries of `rs` that have a reset time, in their order.
pub open spec fn reset_entries(rs: Seq<LimitReading>) -> Seq<LimitReading> {
    rs.filter(|r: LimitReading| with_reset(r))
}

/// Every `limits` entry with a reset time is shown, whatever its kind, and only those,
/// in their order: the `i`-th window is the `i`-th such entry, with its kind as id, the
/// kind's label, its use and its reset time.
pub proof fn law_every_reset_entry_shown(rs: Seq<LimitReading>)
    ensures
        limit_windows(rs).len() == reset_entries(rs).len(),
        forall|i: int| 0 <= i < limit_windows(rs).len() ==> {
            let e = #[trigger] reset_entries(rs)[i];
            &&& limit_windows(rs)[i].id == e.kind@
            &&& limit_windows(rs)[i].label == kind_label(e.kind@)
            &&& limit_windows(rs)[i].used == e.used
            &&& limit_windows(rs)[i].resets_at == e.resets_at
        },
    decreases rs.len(),
{
    reveal_with_fuel(Seq::filter, 1);
    if rs.len() > 0 {
        law_every_reset_entry_shown(rs.drop_last());
    }
}

/// A fallback field is shown unless a window already shown stands for it: when every
/// shown window has an id that is none of the fallback's aliases, a label other than
/// the fallback's, and no reset time in the same second as the fallback's, the
/// fallback is added after them, under `id`, with its own use and reset time. A window
/// that resets at another time never hides it, however close its use.
pub proof fn law_fallback_shown_unless_duplicated(
    ws: Seq<WindowView>,
    f: FallbackReading,
    id: Seq<char>,
    aliases: Seq<Seq<char>>,
)
    requires
        forall|i: int| 0 <= i < ws.len() ==> {
            &&& !aliases.contains(#[trigger] ws[i].id)
            &&& ws[i].label != kind_label(id)
            &&& (ws[i].resets_at matches Some(x) && f.resets_at matches Some(y) ==> x / 1000 != y / 1000)
        },
    ensures
        merged(ws, Some(f), id, aliases).len() == ws.len() + 1,
        merged(ws, Some(f), id, aliases).subrange(0, ws.len() as int) == ws,
        merged(ws, Some(f), id, aliases)[ws.len() as int].id == id,
        merged(ws, Some(f), id, aliases)[ws.len() as int].label == kind_label(id),
        merged(ws, Some(f), id, aliases)[ws.len() as int].used == f.used,
        merged(ws, Some(f), id, aliases)[ws.len() as int].resets_at == f.resets_at,
{
    assert forall|i: int| 0 <= i < ws.len() implies !duplicates(ws[i], fallback_window(id, f), aliases) by {
        assert(!aliases.contains(ws[i].id));
    }
    assert(merged(ws, Some(f), id, aliases) == ws.push(fallback_window(id, f)));
    assert(ws.push(fallback_window(id, f)).subrange(0, ws.len() as int) =~= ws);
}

/// A fallback field is not shown twice: when some window already shown has one of the
/// fallback's aliases as id, or the fallback's label, or a reset time in the same second
/// as the fallback's with a use less than half a percent away, the windows stay as they
/// were.
pub proof fn law_fallback_hidden_when_duplicated(
    ws: Seq<WindowView>,
    f: FallbackReading,
    id: Seq<char>,
    aliases: Seq<Seq<char>>,
    i: int,
)
    requires
        0 <= i < ws.len(),
        ({
            ||| aliases.contains(ws[i].id)
            ||| ws[i].label == kind_label(id)
            ||| (ws[i].resets_at matches Some(x) && f.resets_at matches Some(y) && x / 1000 == y / 1000
                && use_distance(ws[i].used, f.used) < SAME_USE_TOLERANCE)
        }),
    ensures
        merged(ws, Some(f), id, aliases) == ws,
{
    assert(duplicates(ws[i], fallback_window(id, f), aliases));
}

/// A reply whose `limits` hold one window of another kind than the session, resetting
/// in another second than the `five_hour` fallback, shows both: the session window from
/// the fallback first, then the `limits` window.
pub proof fn law_session_fallback_beside_other_window(r: LimitReading, f: FallbackReading)
    requires
        r.resets_at is Some,
        f.resets_at is Some,
        r.resets_at->0 / 1000 != f.resets_at->0 / 1000,
        r.kind@ != "session"@,
        r.kind@ != "five_hour"@,
        kind_label(r.kind@) != "Current session"@,
    ensures
        assembled(seq![r], Some(f), None).len() == 2,
        assembled(seq![r], Some(f), None)[0].id == "session"@,
        assembled(seq![r], Some(f), None)[0].used == f.used,
        assembled(seq![r], Some(f), None)[0].resets_at == f.resets_at,
        assembled(seq![r], Some(f), None)[1].id == r.kind@,
{
    let rs = seq![r];
    assert(rs.drop_last() =~= Seq::<LimitReading>::empty());
    assert(limit_windows(rs.drop_last()) =~= Seq::<WindowView>::empty());
    let lw = limit_windows(rs);
    assert(lw =~= seq![limit_window(r)]);
    let a = five_hour_aliases();
    assert(a[0] == "session"@ && a[1] == "five_hour"@ && a.len() == 2);
    assert(!a.contains(lw[0].id)) by {
        if a.contains(lw[0].id) {
            let k = choose|k: int| 0 <= k < a.len() && a[k] == lw[0].id;
        }
    }
    law_fallback_shown_unless_duplicated(lw, f, "session"@, a);
    let m = merged(lw, Some(f), "session"@, a);
    assert(m =~= seq![limit_window(r), fallback_window("session"@, f)]);
    assert(m.drop_last() =~= seq![limit_window(r)]);
    assert(m.drop_last().drop_last() =~= Seq::<WindowView>::empty());
    assert(windows_where(m.drop_last().drop_last(), true) =~= Seq::<WindowView>::empty());
    assert(windows_where(m.drop_last().drop_last(), false) =~= Seq::<WindowView>::empty());
    assert(windows_where(m.drop_last(), true) =~= Seq::<WindowView>::empty());
    assert(windows_where(m.drop_last(), false) =~= seq![limit_window(r)]);
    assert(windows_where(m, true) =~= seq![fallback_window("session"@, f)]);
    assert(windows_where(m, false) =~= seq![limit_window(r)]);
}

/// A restart keeps everything that was stored but the status: the windows, the time
/// they were read, the note and the back-off deadline (so that no request is made
/// before it); the status becomes stale when there are windows, and stays otherwise.
/// With nothing stored, nothing is shown and no deadline holds.
pub proof fn law_restore_keeps_stored_fields(s: SnapshotView)
    ensures
        restored(Some(s)).windows == s.windows,
        restored(Some(s)).fetched_at == s.fetched_at,
        restored(Some(s)).note == s.note,
        restored(Some(s)).backoff_until == s.backoff_until,
        restored(Some(s)).status == (if s.windows.len() > 0 { "stale"@ } else { s.status }),
        restored(None).windows.len() == 0,
        restored(None).backoff_until == 0,
        restored(None).fetched_at == 0,
{
}

} // verus!
