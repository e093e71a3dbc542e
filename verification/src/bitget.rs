//! Bitget framing: the ticker frame and the subscribe message. OKEx frames
//! have the same shape and are read by the same functions.

use crate::json::{
    array, json_document, json_items_member, json_printed, json_text_member, json_views,
    member_views, object, print, text, Json, JsonView,
};
use crate::text::{contains_text, i64_of_text, occurs_in, parse_i64, string_views};
use crate::ticker::{silent_frame, tick_views, Frame, FrameView, Tick, TickView};
use vstd::prelude::*;

verus! {

/// The price report of one item of a ticker frame: the last price under
/// `lastPr`, the instrument under `instId`, the time under `ts`, all three as
/// text. An item that lacks one of them gives no report. The time counts as
/// zero where it is no number.
pub open spec fn bitget_tick(item: Json) -> Option<TickView> {
    match (
        json_text_member(item, "lastPr"@),
        json_text_member(item, "instId"@),
        json_text_member(item, "ts"@),
    ) {
        (Some(last_pr), Some(inst_id), Some(ts)) => Some(
            TickView {
                inst_id,
                last_pr,
                ts,
                timestamp: match i64_of_text(ts) {
                    Some(t) => t as int,
                    None => 0,
                },
            },
        ),
        _ => None,
    }
}

/// The price reports of the items of a ticker frame, in order.
pub open spec fn bitget_ticks(items: Seq<Json>) -> Seq<TickView>
    decreases items.len(),
{
    if items.len() == 0 {
        Seq::empty()
    } else {
        match bitget_tick(items.last()) {
            Some(t) => bitget_ticks(items.drop_last()).push(t),
            None => bitget_ticks(items.drop_last()),
        }
    }
}

/// The price reports of a ticker document: those of the items of the array
/// under `data`; none where there is no such array.
pub open spec fn bitget_document_ticks(doc: Json) -> Seq<TickView> {
    match json_items_member(doc, "data"@) {
        Some(items) => bitget_ticks(items),
        None => Seq::empty(),
    }
}

/// What a text frame from Bitget asks for. A frame without `ticker` is
/// passed over, and so is one that is no JSON document. No frame is
/// answered.
pub open spec fn bitget_frame(text: Seq<char>) -> FrameView {
    if !occurs_in(text, "ticker"@) {
        silent_frame()
    } else {
        match json_document(text) {
            Some(doc) => FrameView { reply: None, ticks: bitget_document_ticks(doc) },
            None => silent_frame(),
        }
    }
}

/// The subscription argument of an instrument: the spot ticker channel of
/// that instrument.
pub open spec fn bitget_arg(symbol: Seq<char>) -> JsonView {
    JsonView::Object(
        seq![
            ("channel"@, JsonView::Text("ticker"@)),
            ("instId"@, JsonView::Text(symbol)),
            ("instType"@, JsonView::Text("SPOT"@)),
        ],
    )
}

/// The subscription arguments of a list of instruments.
pub open spec fn bitget_args(symbols: Seq<Seq<char>>) -> Seq<JsonView> {
    symbols.map_values(|s: Seq<char>| bitget_arg(s))
}

/// The document of the subscribe message for a list of instruments: the
/// arguments as `args`, `subscribe` as `op`.
pub open spec fn bitget_subscribe_document(symbols: Seq<Seq<char>>) -> JsonView {
    JsonView::Object(
        seq![
            ("args"@, JsonView::Array(bitget_args(symbols))),
            ("op"@, JsonView::Text("subscribe"@)),
        ],
    )
}

/// The subscribe message for a list of instruments: the document as it is
/// printed; `None` for an empty list.
pub open spec fn bitget_subscribe(symbols: Seq<Seq<char>>) -> Option<Seq<char>> {
    if symbols.len() == 0 {
        None
    } else {
        Some(json_printed(bitget_subscribe_document(symbols)))
    }
}

/// Reads the price report of one item of a ticker frame.
pub fn tick_of(item: &Json) -> (r: Option<Tick>)
    ensures
        match r {
            Some(t) => bitget_tick(*item) == Some(t@),
            None => bitget_tick(*item) is None,
        },
{
    let last_pr = match item.text_member("lastPr") {
        Some(s) => s,
        None => {
            return None;
        },
    };
    let inst_id = match item.text_member("instId") {
        Some(s) => s,
        None => {
            return None;
        },
    };
    let ts = match item.text_member("ts") {
        Some(s) => s,
        None => {
            return None;
        },
    };
    let timestamp = match parse_i64(ts.as_str()) {
        Some(t) => t,
        None => 0,
    };
    Some(Tick { inst_id: inst_id.clone(), last_pr: last_pr.clone(), ts: ts.clone(), timestamp })
}

/// Reads the price reports of a ticker document.
pub fn ticks_of(doc: &Json) -> (r: Vec<Tick>)
    ensures
        tick_views(r@) == bitget_document_ticks(*doc),
{
    let mut ticks: Vec<Tick> = Vec::new();
    proof {
        assert(tick_views(ticks@) =~= Seq::<TickView>::empty());
    }
    let items = match doc.member("data") {
        Some(m) => match m.as_array() {
            Some(items) => items,
            None => {
                return ticks;
            },
        },
        None => {
            return ticks;
        },
    };
    let mut i: usize = 0;
    proof {
        assert(items@.take(0) =~= Seq::<Json>::empty());
    }
    while i < items.len()
        invariant
            i <= items@.len(),
            tick_views(ticks@) == bitget_ticks(items@.take(i as int)),
        decreases items@.len() - i,
    {
        proof {
            assert(items@.take(i + 1).drop_last() =~= items@.take(i as int));
            assert(items@.take(i + 1).last() == items@[i as int]);
        }
        match tick_of(&items[i]) {
            Some(tick) => {
                let ghost before = tick_views(ticks@);
                ticks.push(tick);
                proof {
                    assert(tick_views(ticks@) =~= before.push(tick@));
                }
            },
            None => {},
        }
        i = i + 1;
    }
    proof {
        assert(items@.take(i as int) =~= items@);
    }
    ticks
}

/// Reads a text frame.
pub fn read_frame(text: &str) -> (r: Frame)
    ensures
        r@ == bitget_frame(text@),
{
    if !contains_text(text, "ticker") {
        return Frame::silent();
    }
    match Json::parse(text) {
        Some(doc) => Frame { reply: None, ticks: ticks_of(&doc) },
        None => Frame::silent(),
    }
}

/// The subscription argument of an instrument.
fn arg_of(symbol: &str) -> (r: Json)
    ensures
        r@ == bitget_arg(symbol@),
{
    let mut members: Vec<(String, Json)> = Vec::new();
    members.push(("channel".to_owned(), text("ticker")));
    members.push(("instId".to_owned(), text(symbol)));
    members.push(("instType".to_owned(), text("SPOT")));
    proof {
        assert(member_views(members@) =~= seq![
            ("channel"@, JsonView::Text("ticker"@)),
            ("instId"@, JsonView::Text(symbol@)),
            ("instType"@, JsonView::Text("SPOT"@)),
        ]);
    }
    object(members)
}

/// Builds the subscribe message for a list of instruments.
pub fn build_sub_msg(symbols: &Vec<String>) -> (r: Option<String>)
    ensures
        match r {
            Some(msg) => bitget_subscribe(string_views(symbols@)) == Some(msg@),
            None => bitget_subscribe(string_views(symbols@)) is None,
        },
{
    if symbols.len() == 0 {
        return None;
    }
    let mut args: Vec<Json> = Vec::new();
    let mut i: usize = 0;
    let ghost names = string_views(symbols@);
    while i < symbols.len()
        invariant
            i <= symbols@.len(),
            args@.len() == i,
            names == string_views(symbols@),
            json_views(args@) == bitget_args(names).take(i as int),
        decreases symbols@.len() - i,
    {
        let ghost before = json_views(args@);
        args.push(arg_of(symbols[i].as_str()));
        proof {
            assert(forall|j: int| 0 <= j < i ==> json_views(args@)[j] == before[j]);
            assert(json_views(args@) =~= bitget_args(names).take(i + 1));
        }
        i = i + 1;
    }
    proof {
        assert(bitget_args(names).take(i as int) =~= bitget_args(names));
    }
    let mut members: Vec<(String, Json)> = Vec::new();
    members.push(("args".to_owned(), array(args)));
    members.push(("op".to_owned(), text("subscribe")));
    proof {
        assert(member_views(members@) =~= seq![
            ("args"@, JsonView::Array(bitget_args(names))),
            ("op"@, JsonView::Text("subscribe"@)),
        ]);
    }
    let doc = object(members);
    Some(print(&doc))
}

} // verus!
