//! Repair of file reads that ask for an impossible place in a file.
//!
//! A model sometimes calls the `Read` tool with an offset far past the end of any file. The offset is
//! taken out of the call before a client runs it, and the model is told so when the call's result
//! goes back to it, so that it does not ask again.
use crate::json;
use crate::json::{Json, JsonView};
use crate::text;
use vstd::prelude::*;

verus! {

/// The largest offset that a read may ask for. No file that is worth reading has more lines; the
/// limit is this library's own choice.
pub const MAX_READ_OFFSET: i64 = 1_000_000;

/// An offset that was taken out of a call.
#[derive(Debug, PartialEq)]
pub struct ReadOffsetRewrite {
    pub call_id: String,
    pub offset: u64,
}

/// A rewrite with its text as a sequence of characters.
pub struct RewriteView {
    pub call_id: Seq<char>,
    pub offset: u64,
}

impl View for ReadOffsetRewrite {
    type V = RewriteView;

    open spec fn view(&self) -> RewriteView {
        RewriteView { call_id: self.call_id@, offset: self.offset }
    }
}

/// The views of a list of rewrites.
pub open spec fn rewrites_view(v: Seq<ReadOffsetRewrite>) -> Seq<RewriteView> {
    v.map_values(|r: ReadOffsetRewrite| r@)
}

/// The offset that has to be taken out of a call of `name` with `args`, if any.
pub open spec fn absurd_offset(name: Seq<char>, args: JsonView) -> Option<u64> {
    if name != "Read"@ {
        None
    } else {
        match args.get_i64("offset"@) {
            Some(o) => if o > MAX_READ_OFFSET {
                Some(o as u64)
            } else {
                None
            },
            None => None,
        }
    }
}

/// Only a read is repaired, and only where it asks for a place past the limit: that place is what is
/// taken out.
pub proof fn law_only_reads_far_out_are_repaired(name: Seq<char>, args: JsonView, o: i64)
    ensures
        name != "Read"@ ==> absurd_offset(name, args) is None,
        name == "Read"@ && args.get_i64("offset"@) is None ==> absurd_offset(name, args) is None,
        name == "Read"@ && args.get_i64("offset"@) == Some(o) ==> {
            &&& o <= 1_000_000 ==> absurd_offset(name, args) is None
            &&& o > 1_000_000 ==> absurd_offset(name, args) == Some(o as u64)
        },
{
}

/// The arguments without their offset.
pub open spec fn without_offset(args: JsonView) -> JsonView {
    match args.as_object() {
        Some(e) => JsonView::Object(json::omit(e, "offset"@)),
        None => args,
    }
}

/// The offset that has to be taken out of a call of `name` whose arguments are the text `args`.
pub open spec fn offset_in(name: Seq<char>, args: Seq<char>) -> Option<u64> {
    match json::parsed_json(vstd::utf8::encode_utf8(args)) {
        Some(v) => absurd_offset(name, v),
        None => None,
    }
}

/// The arguments that a client gets for a call of `name` whose arguments are the text `args`: the
/// same text, unless an offset has to go.
pub open spec fn sanitized(name: Seq<char>, args: Seq<char>) -> Seq<char> {
    match json::parsed_json(vstd::utf8::encode_utf8(args)) {
        Some(v) => if absurd_offset(name, v) is Some {
            match json::json_text(without_offset(v)) {
                Some(t) => t,
                None => args,
            }
        } else {
            args
        },
        None => args,
    }
}

/// The arguments of a call, once an impossible offset is out of them.
#[derive(Debug, PartialEq)]
pub struct Sanitized {
    pub args: String,
    pub removed: Option<u64>,
}

/// Takes an impossible offset out of the arguments of a call; `None` where there is none.
pub fn strip_absurd_offset(name: &str, args: &Json) -> (r: Option<(Json, u64)>)
    ensures
        match r {
            Some((clean, offset)) => absurd_offset(name@, args@) == Some(offset) && clean@
                == without_offset(args@),
            None => absurd_offset(name@, args@) is None,
        },
{
    if !text::same(name, "Read") {
        return None;
    }
    match args.get_i64("offset") {
        Some(offset) => {
            if offset <= MAX_READ_OFFSET {
                return None;
            }
            match args.as_object() {
                Some(o) => Some((Json::Object(o.without("offset")), offset as u64)),
                None => None,
            }
        },
        None => None,
    }
}

/// Once the offset is out of the arguments of a call, none has to go any more.
pub proof fn law_no_offset_is_left(name: Seq<char>, args: JsonView)
    ensures
        absurd_offset(name, args) is Some ==> absurd_offset(name, without_offset(args)) is None,
{
    match args {
        JsonView::Object(e) => {
            json::law_only_the_omitted_member_goes(e, "offset"@, "offset"@);
        },
        _ => {},
    }
}

/// Takes an impossible offset out of the arguments text of a call. Where the arguments are a plain
/// tree, none is left in the text that comes out.
pub fn sanitize_read_args(name: &str, args: &str) -> (r: Sanitized)
    ensures
        r.args@ == sanitized(name@, args@),
        r.removed == offset_in(name@, args@),
        json::parsed_json(vstd::utf8::encode_utf8(args@)) matches Some(v) ==> (json::plain(
            v,
            json::MAX_DEPTH as nat,
        ) ==> offset_in(name@, r.args@) is None),
{
    match Json::parse(args.as_bytes()) {
        Some(v) => match strip_absurd_offset(name, &v) {
            Some((clean, offset)) => {
                proof {
                    law_no_offset_is_left(name@, v@);
                    if json::plain(v@, json::MAX_DEPTH as nat) {
                        json::lemma_omit_plain(
                            v@->Object_0,
                            "offset"@,
                            json::MAX_DEPTH as nat,
                        );
                    }
                }
                let kept = match clean.to_text() {
                    Some(t) => t,
                    None => args.to_owned(),
                };
                Sanitized { args: kept, removed: Some(offset) }
            },
            None => Sanitized { args: args.to_owned(), removed: None },
        },
        None => Sanitized { args: args.to_owned(), removed: None },
    }
}

/// The latest rewrite of the call `call_id`.
pub open spec fn latest_rewrite(rewrites: Seq<RewriteView>, call_id: Seq<char>) -> Option<
    RewriteView,
>
    decreases rewrites.len(),
{
    if rewrites.len() == 0 {
        None
    } else if rewrites.last().call_id == call_id {
        Some(rewrites.last())
    } else {
        latest_rewrite(rewrites.drop_last(), call_id)
    }
}

/// The latest rewrite of a call is the one that no other of that call comes after; a call that was not
/// rewritten has none.
pub proof fn law_the_latest_rewrite_counts(
    rewrites: Seq<RewriteView>,
    call_id: Seq<char>,
    i: int,
)
    ensures
        0 <= i < rewrites.len() && rewrites[i].call_id == call_id && (forall|j: int|
            i < j < rewrites.len() ==> (#[trigger] rewrites[j]).call_id != call_id)
            ==> latest_rewrite(rewrites, call_id) == Some(rewrites[i]),
        (forall|j: int| 0 <= j < rewrites.len() ==> (#[trigger] rewrites[j]).call_id != call_id)
            ==> latest_rewrite(rewrites, call_id) is None,
    decreases rewrites.len(),
{
    if rewrites.len() > 0 {
        let most = rewrites.drop_last();
        law_the_latest_rewrite_counts(most, call_id, i);
        assert(forall|j: int| 0 <= j < most.len() ==> #[trigger] most[j] == rewrites[j]);
        assert(rewrites.last() == rewrites[rewrites.len() - 1]);
    }
}

/// The latest rewrite of the call `call_id`, if it was rewritten.
pub fn read_offset_rewrite<'a>(rewrites: &'a [ReadOffsetRewrite], call_id: &str) -> (r: Option<
    &'a ReadOffsetRewrite,
>)
    ensures
        match r {
            Some(rw) => latest_rewrite(rewrites_view(rewrites@), call_id@) == Some(rw@),
            None => latest_rewrite(rewrites_view(rewrites@), call_id@) is None,
        },
{
    let ghost all = rewrites_view(rewrites@);
    let mut i: usize = rewrites.len();
    assert(all.take(all.len() as int) =~= all);
    while i > 0
        invariant
            i <= rewrites@.len(),
            all == rewrites_view(rewrites@),
            latest_rewrite(all, call_id@) == latest_rewrite(all.take(i as int), call_id@),
        decreases i,
    {
        assert(all.take(i as int).drop_last() =~= all.take(i - 1));
        assert(all.take(i as int).last() == rewrites@[i - 1]@);
        if text::same(rewrites[i - 1].call_id.as_str(), call_id) {
            return Some(&rewrites[i - 1]);
        }
        i = i - 1;
    }
    None
}

/// What the model is told of a rewrite, in this library's own words.
pub open spec fn note_view(offset: u64) -> Seq<char> {
    "[llmtrim: dropped offset="@ + text::decimal(offset as nat)
        + " from this Read call because it lies past the end of the file; do not pass it again]"@
}

/// What the model is told of a rewrite.
pub fn read_offset_rewrite_note(rw: &ReadOffsetRewrite) -> (r: String)
    ensures
        r@ == note_view(rw.offset),
{
    let mut out = "[llmtrim: dropped offset=".to_owned();
    out.append(text::decimal_text(rw.offset).as_str());
    out.append(" from this Read call because it lies past the end of the file; do not pass it again]");
    out
}

} // verus!
