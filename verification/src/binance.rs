//! Binance framing: the mini-ticker frame and the subscribe message.

use crate::json::{
    array, json_document, json_i64_member, json_printed, json_text_member, json_views,
    member_views, number, object, print, text, Json, JsonView,
};
use crate::text::{
    concat2, contains_text, i64_text, int_text, lowercase_text, occurs_in, outside_lowercase,
    replace_text, replaced_text, string_views,
};
use crate::ticker::{silent_frame, Frame, FrameView, Tick, TickView};
use vstd::prelude::*;

verus! {

/// What follows the lower-case instrument in a stream name.
pub open spec fn ticker_suffix() -> Seq<char> {
    "@miniTicker"@
}

/// The price report of a mini-ticker document: the instrument under `s` and
/// the last price under `c`, both as text, and the event time under `E`. A
/// document that lacks the instrument or the price, or holds either as
/// something other than text, gives no report. The time counts as zero where
/// there is none.
pub open spec fn binance_tick(doc: Json) -> Option<TickView> {
    match (json_text_member(doc, "s"@), json_text_member(doc, "c"@)) {
        (Some(inst_id), Some(last_pr)) => {
            let timestamp = match json_i64_member(doc, "E"@) {
                Some(t) => t as int,
                None => 0,
            };
            Some(TickView { inst_id, last_pr, ts: int_text(timestamp), timestamp })
        },
        _ => None,
    }
}

/// The price reports of a mini-ticker document: the one that it gives, or
/// none.
pub open spec fn binance_document_ticks(doc: Json) -> Seq<TickView> {
    match binance_tick(doc) {
        Some(t) => seq![t],
        None => Seq::empty(),
    }
}

/// What a text frame from Binance asks for. A frame without `MiniTicker` is
/// no price report: where it holds `ping` it is answered by itself with
/// `pong` in place of `ping`, else it is passed over. A frame with
/// `MiniTicker` gives the price report of its document; one that is no JSON
/// document, or whose document gives no report, is dropped.
pub open spec fn binance_frame(text: Seq<char>) -> FrameView {
    if !occurs_in(text, "MiniTicker"@) {
        if occurs_in(text, "ping"@) {
            FrameView { reply: Some(replaced_text(text, "ping"@, "pong"@)), ticks: Seq::empty() }
        } else {
            silent_frame()
        }
    } else {
        match json_document(text) {
            Some(doc) => FrameView { reply: None, ticks: binance_document_ticks(doc) },
            None => silent_frame(),
        }
    }
}

/// Whether a text is a corrupted price frame: no JSON document, or one
/// without the instrument or the price as text.
pub open spec fn is_corrupted(text: Seq<char>) -> bool {
    match json_document(text) {
        Some(doc) => json_text_member(doc, "s"@) is None || json_text_member(doc, "c"@) is None,
        None => true,
    }
}

/// A corrupted frame asks for nothing: it gives no price report, and no
/// reply unless it is a ping.
pub proof fn lemma_corrupted_frame_is_dropped(text: Seq<char>)
    requires
        is_corrupted(text),
    ensures
        binance_frame(text).ticks == Seq::<TickView>::empty(),
        occurs_in(text, "MiniTicker"@) || !occurs_in(text, "ping"@) ==> binance_frame(text)
            == silent_frame(),
{
}

/// The stream names of a list of instruments, each in lower case and
/// followed by the suffix, as documents.
pub open spec fn binance_streams(symbols: Seq<Seq<char>>) -> Seq<JsonView> {
    symbols.map_values(|s: Seq<char>| JsonView::Text(lowercase_text(s) + ticker_suffix()))
}

/// The document of the subscribe message for a list of instruments, made at
/// `now_ms`: the time as `id`, `SUBSCRIBE` as `method`, the stream names as
/// `params`.
pub open spec fn binance_subscribe_document(symbols: Seq<Seq<char>>, now_ms: int) -> JsonView {
    JsonView::Object(
        seq![
            ("id"@, JsonView::Number(Some(now_ms as i64))),
            ("method"@, JsonView::Text("SUBSCRIBE"@)),
            ("params"@, JsonView::Array(binance_streams(symbols))),
        ],
    )
}

/// The subscribe message for a list of instruments, made at `now_ms`: the
/// document as it is printed; `None` for an empty list.
pub open spec fn binance_subscribe(symbols: Seq<Seq<char>>, now_ms: int) -> Option<Seq<char>> {
    if symbols.len() == 0 {
        None
    } else {
        Some(json_printed(binance_subscribe_document(symbols, now_ms)))
    }
}

/// Reads the price report of a mini-ticker document.
pub fn tick_of(doc: &Json) -> (r: Option<Tick>)
    ensures
        match r {
            Some(t) => binance_tick(*doc) == Some(t@),
            None => binance_tick(*doc) is None,
        },
{
    let inst_id = match doc.text_member("s") {
        Some(s) => s,
        None => {
            return None;
        },
    };
    let last_pr = match doc.text_member("c") {
        Some(s) => s,
        None => {
            return None;
        },
    };
    let timestamp = match doc.member("E") {
        Some(m) => match m.as_i64() {
            Some(t) => t,
            None => 0,
        },
        None => 0,
    };
    Some(
        Tick {
            inst_id: inst_id.clone(),
            last_pr: last_pr.clone(),
            ts: i64_text(timestamp),
            timestamp,
        },
    )
}

/// Reads a text frame.
pub fn read_frame(text: &str) -> (r: Frame)
    ensures
        r@ == binance_frame(text@),
{
    if !contains_text(text, "MiniTicker") {
        if contains_text(text, "ping") {
            let r = Frame { reply: Some(replace_text(text, "ping", "pong")), ticks: Vec::new() };
            proof {
                assert(r@.ticks =~= Seq::<TickView>::empty());
            }
            return r;
        }
        return Frame::silent();
    }
    match Json::parse(text) {
        Some(doc) => {
            let mut ticks: Vec<Tick> = Vec::new();
            match tick_of(&doc) {
                Some(tick) => {
                    ticks.push(tick);
                },
                None => {},
            }
            let r = Frame { reply: None, ticks };
            proof {
                assert(r@.ticks =~= binance_document_ticks(doc));
            }
            r
        },
        None => Frame::silent(),
    }
}

/// Builds the subscribe message for a list of instruments.
pub fn build_sub_msg(symbols: &Vec<String>, now_ms: i64) -> (r: Option<String>)
    ensures
        match r {
            Some(msg) => binance_subscribe(string_views(symbols@), now_ms as int) == Some(msg@),
            None => binance_subscribe(string_views(symbols@), now_ms as int) is None,
        },
{
    if symbols.len() == 0 {
        return None;
    }
    let mut streams: Vec<Json> = Vec::new();
    let mut i: usize = 0;
    let ghost names = string_views(symbols@);
    while i < symbols.len()
        invariant
            i <= symbols@.len(),
            streams@.len() == i,
            names == string_views(symbols@),
            json_views(streams@) == binance_streams(names).take(i as int),
        decreases symbols@.len() - i,
    {
        let lower = outside_lowercase(symbols[i].as_str());
        let stream = concat2(lower.as_str(), "@miniTicker");
        let ghost before = json_views(streams@);
        streams.push(text(stream.as_str()));
        proof {
            assert(forall|j: int| 0 <= j < i ==> json_views(streams@)[j] == before[j]);
            assert(json_views(streams@) =~= binance_streams(names).take(i + 1));
        }
        i = i + 1;
    }
    proof {
        assert(binance_streams(names).take(i as int) =~= binance_streams(names));
    }
    let mut members: Vec<(String, Json)> = Vec::new();
    members.push(("id".to_owned(), number(now_ms)));
    members.push(("method".to_owned(), text("SUBSCRIBE")));
    members.push(("params".to_owned(), array(streams)));
    proof {
        assert(member_views(members@) =~= seq![
            ("id"@, JsonView::Number(Some(now_ms))),
            ("method"@, JsonView::Text("SUBSCRIBE"@)),
            ("params"@, JsonView::Array(binance_streams(names))),
        ]);
    }
    let doc = object(members);
    Some(print(&doc))
}

} // verus!
