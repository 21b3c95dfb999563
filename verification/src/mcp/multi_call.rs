//! The `multi_call` toolset: invoke several tools in one request and join
//! their results.
use vstd::prelude::*;

use crate::text::{decimal, str_eq, string_views};

verus! {

/// The wire name of the multi_call tool.
pub open spec fn multi_tool_name(name: Seq<char>) -> bool {
    name == "multi_call"@
}

/// Whether `name` is one of the multi_call tools.
pub fn is_multi_tool(name: &str) -> (r: bool)
    ensures
        r == multi_tool_name(name@),
{
    str_eq(name, "multi_call")
}

} // verus!

verus! {

/// Parameters of `multi_call`.
pub struct MultiCallRequest {
    /// The tool calls to run concurrently.
    pub calls: Vec<ToolCall>,
}

/// One call of a `multi_call` request.
pub struct ToolCall {
    /// Name of the tool (in the agent's arsenal) to invoke.
    pub tool: String,
    /// Arguments to pass to that tool.
    pub arguments: serde_json::Value,
}

/// One piece of the joined result: a text block written here, or a content
/// block `B` passed through verbatim from a tool's own result.
pub enum Piece<B> {
    Text(String),
    Block(B),
}

/// A piece with its text as characters.
pub enum PieceView<B> {
    Text(Seq<char>),
    Block(B),
}

impl<B> View for Piece<B> {
    type V = PieceView<B>;

    open spec fn view(&self) -> PieceView<B> {
        match self {
            Piece::Text(s) => PieceView::Text(s@),
            Piece::Block(b) => PieceView::Block(*b),
        }
    }
}

/// The joined result of a `multi_call`.
pub struct MultiCallReply<B> {
    pub is_error: bool,
    pub content: Vec<Piece<B>>,
}

/// The outcome of one call: the tool's content blocks, or the raw failure
/// text when the call could not be made.
pub open spec fn call_view<B>(r: Result<Vec<B>, String>) -> Result<Seq<B>, Seq<char>> {
    match r {
        Ok(blocks) => Ok(blocks@),
        Err(e) => Err(e@),
    }
}

pub open spec fn call_views<B>(rs: Seq<Result<Vec<B>, String>>) -> Seq<Result<Seq<B>, Seq<char>>> {
    rs.map_values(|r: Result<Vec<B>, String>| call_view(r))
}

pub open spec fn piece_views<B>(ps: Seq<Piece<B>>) -> Seq<PieceView<B>> {
    ps.map_values(|p: Piece<B>| p@)
}


/// The header of segment `i`, naming its tool.
pub open spec fn result_header(i: nat, tool: Seq<char>) -> Seq<char> {
    "[result "@ + decimal(i) + " ("@ + tool + ")]\n"@
}

/// The content blocks, each as a piece.
pub open spec fn block_pieces<B>(blocks: Seq<B>) -> Seq<PieceView<B>> {
    blocks.map_values(|b: B| PieceView::Block(b))
}

/// Segment `i` of the joined result: a blank-line separator before every
/// segment but the first, the header, then the tool's blocks verbatim, or the
/// failure text.
pub open spec fn segment<B>(i: nat, tool: Seq<char>, r: Result<Seq<B>, Seq<char>>) -> Seq<PieceView<B>> {
    let sep: Seq<PieceView<B>> = if i > 0 { seq![PieceView::Text("\n\n"@)] } else { Seq::empty() };
    let body: Seq<PieceView<B>> = match r {
        Ok(blocks) => block_pieces(blocks),
        Err(e) => seq![PieceView::Text(e)],
    };
    sep + seq![PieceView::Text(result_header(i, tool))] + body
}

/// All segments, in input order.
pub open spec fn joined<B>(tools: Seq<Seq<char>>, results: Seq<Result<Seq<B>, Seq<char>>>) -> Seq<PieceView<B>>
    decreases tools.len(),
{
    if tools.len() == 0 {
        Seq::empty()
    } else {
        let n = (tools.len() - 1) as int;
        joined(tools.take(n), results.take(n)) + segment(n as nat, tools[n], results[n])
    }
}

/// What a call contributes after its header: its content blocks in order,
/// or its failure text.
pub open spec fn call_report<B>(r: Result<Seq<B>, Seq<char>>) -> Seq<PieceView<B>> {
    match r {
        Ok(blocks) => blocks.map_values(|b: B| PieceView::Block(b)),
        Err(e) => seq![PieceView::Text(e)],
    }
}

/// Every call is reported in the joined result: somewhere in it stands the
/// header naming the call's position and tool, followed directly by the
/// call's blocks verbatim, or by its failure text.
pub proof fn lemma_joined_reports_each_call<B>(
    tools: Seq<Seq<char>>,
    results: Seq<Result<Seq<B>, Seq<char>>>,
    i: int,
)
    requires
        tools.len() == results.len(),
        0 <= i < tools.len(),
    ensures
        exists|p: int| #![trigger joined(tools, results)[p]]
            0 <= p && p + 1 + call_report(results[i]).len() <= joined(tools, results).len()
            && joined(tools, results)[p] == PieceView::<B>::Text(result_header(i as nat, tools[i]))
            && joined(tools, results).subrange(p + 1, p + 1 + call_report(results[i]).len()) == call_report(results[i]),
    decreases tools.len(),
{
    let n = tools.len() - 1;
    let pre = joined(tools.take(n), results.take(n));
    let seg = segment(n as nat, tools[n], results[n]);
    assert(joined(tools, results) == pre + seg);
    if i == n {
        let sep_len: int = if n > 0 { 1 } else { 0 };
        let p = pre.len() + sep_len;
        assert(seg[sep_len] == PieceView::<B>::Text(result_header(n as nat, tools[n])));
        assert(seg.subrange(sep_len + 1, seg.len() as int) =~= call_report(results[n]));
        assert((pre + seg).subrange(p + 1, p + 1 + call_report(results[i]).len()) =~= call_report(results[i]));
        assert(joined(tools, results)[p] == PieceView::<B>::Text(result_header(i as nat, tools[i])));
    } else {
        lemma_joined_reports_each_call(tools.take(n), results.take(n), i);
        let p = choose|p: int| #![trigger joined(tools.take(n), results.take(n))[p]]
            0 <= p && p + 1 + call_report(results.take(n)[i]).len() <= pre.len()
            && pre[p] == PieceView::<B>::Text(result_header(i as nat, tools.take(n)[i]))
            && pre.subrange(p + 1, p + 1 + call_report(results.take(n)[i]).len()) == call_report(results.take(n)[i]);
        assert(tools.take(n)[i] == tools[i]);
        assert(results.take(n)[i] == results[i]);
        assert((pre + seg).subrange(p + 1, p + 1 + call_report(results[i]).len())
            =~= pre.subrange(p + 1, p + 1 + call_report(results[i]).len()));
        assert(joined(tools, results)[p] == pre[p]);
    }
}

/// The header of call `i` names its position in decimal and its tool
/// verbatim: `[result <i> (<tool>)]` and a line break.
pub proof fn lemma_result_header(i: nat, tool: Seq<char>)
    ensures
        result_header(i, tool).len() == decimal(i).len() + tool.len() + 13,
        result_header(i, tool).subrange(8, 8 + decimal(i).len() as int) == decimal(i),
        result_header(i, tool).subrange(10 + decimal(i).len() as int, 10 + decimal(i).len() + tool.len() as int) == tool,
{
    reveal_strlit("[result ");
    reveal_strlit(" (");
    reveal_strlit(")]\n");
    let h = result_header(i, tool);
    assert(h.subrange(8, 8 + decimal(i).len() as int) =~= decimal(i));
    assert(h.subrange(10 + decimal(i).len() as int, 10 + decimal(i).len() + tool.len() as int) =~= tool);
}

/// Every call failed to be made.
pub open spec fn all_failed<B>(results: Seq<Result<Seq<B>, Seq<char>>>) -> bool {
    forall|i: int| 0 <= i < results.len() ==> (#[trigger] results[i]) is Err
}

/// The error text for a request with no calls.
pub open spec fn no_calls_text() -> Seq<char> {
    "multi_call requires at least one call"@
}

/// Join the outcomes of the calls, given in the order of `tools`, into one
/// result. A request with no calls is an error. Otherwise the result is an
/// error only when every call failed; one success makes it a success.
pub fn join_results<B>(tools: &Vec<String>, results: Vec<Result<Vec<B>, String>>) -> (r: MultiCallReply<B>)
    requires
        tools@.len() == results@.len(),
    ensures
        tools@.len() == 0 ==> r.is_error && piece_views(r.content@) == seq![PieceView::<B>::Text(no_calls_text())],
        tools@.len() > 0 ==> r.is_error == all_failed(call_views(results@)),
        tools@.len() > 0 ==> (r.is_error <==> forall|i: int| 0 <= i < results@.len() ==> (#[trigger] results@[i]) is Err),
        tools@.len() > 0 ==> piece_views(r.content@) == joined(string_views(tools@), call_views(results@)),
{
    if tools.len() == 0 {
        let mut content: Vec<Piece<B>> = Vec::new();
        content.push(Piece::Text("multi_call requires at least one call".to_string()));
        proof {
            assert(piece_views(content@) =~= seq![PieceView::<B>::Text(no_calls_text())]);
        }
        return MultiCallReply { is_error: true, content };
    }
    let ghost tv = string_views(tools@);
    let ghost rv = call_views(results@);
    let mut rest = results;
    let mut content: Vec<Piece<B>> = Vec::new();
    let mut all_errored = true;
    let mut i: usize = 0;
    proof {
        assert(joined(tv.take(0), rv.take(0)) =~= Seq::<PieceView<B>>::empty());
        assert(piece_views(content@) =~= Seq::<PieceView<B>>::empty());
    }
    while i < tools.len()
        invariant
            tv == string_views(tools@),
            rv.len() == tools@.len(),
            i <= tools@.len(),
            rest@.len() == tools@.len() - i,
            forall|k: int| 0 <= k < rest@.len() ==> call_view(#[trigger] rest@[k]) == rv[i + k],
            piece_views(content@) == joined(tv.take(i as int), rv.take(i as int)),
            all_errored == all_failed(rv.take(i as int)),
        decreases tools@.len() - i,
    {
        let ghost before = piece_views(content@);
        let result = rest.remove(0);
        proof {
            assert(call_view(result) == rv[i as int]);
        }
        if i > 0 {
            content.push(Piece::Text("\n\n".to_string()));
        }
        let mut header = "[result ".to_string();
        crate::text::push_decimal(&mut header, i);
        header.append(" (");
        header.append(tools[i].as_str());
        header.append(")]\n");
        content.push(Piece::Text(header));
        let ghost mid = piece_views(content@);
        match result {
            Ok(blocks) => {
                all_errored = false;
                let ghost bs = blocks@;
                let mut blocks = blocks;
                let mut j: usize = 0;
                let n = blocks.len();
                while j < n
                    invariant
                        n == bs.len(),
                        j <= n,
                        blocks@.len() == n - j,
                        forall|k: int| 0 <= k < blocks@.len() ==> blocks@[k] == bs[j + k],
                        piece_views(content@) == mid + block_pieces(bs.take(j as int)),
                    decreases n - j,
                {
                    let b = blocks.remove(0);
                    let ghost pv0 = piece_views(content@);
                    content.push(Piece::Block(b));
                    proof {
                        assert(b == bs[j as int]);
                        assert(piece_views(content@) =~= pv0.push(PieceView::Block(bs[j as int])));
                        assert(block_pieces(bs.take(j + 1)) =~= block_pieces(bs.take(j as int)).push(PieceView::Block(bs[j as int])));
                        assert(piece_views(content@) =~= mid + block_pieces(bs.take(j + 1)));
                    }
                    j = j + 1;
                }
                proof {
                    assert(bs.take(n as int) =~= bs);
                }
            },
            Err(e) => {
                content.push(Piece::Text(e));
            },
        }
        proof {
            let seg = segment(i as nat, tv[i as int], rv[i as int]);
            assert(tv[i as int] == tools@[i as int]@);
            assert(tv.take(i + 1).take(i as int) =~= tv.take(i as int));
            assert(rv.take(i + 1).take(i as int) =~= rv.take(i as int));
            assert(piece_views(content@) =~= before + seg);
            assert(joined(tv.take(i + 1), rv.take(i + 1)) == joined(tv.take(i as int), rv.take(i as int)) + seg);
            assert forall|k: int| 0 <= k < rest@.len() implies call_view(#[trigger] rest@[k]) == rv[i + 1 + k] by {
            }
            assert(all_failed(rv.take(i + 1)) == (all_failed(rv.take(i as int)) && rv[i as int] is Err)) by {
                if all_failed(rv.take(i + 1)) {
                    assert forall|k: int| 0 <= k < rv.take(i as int).len() implies (#[trigger] rv.take(i as int)[k]) is Err by {
                        assert(rv.take(i + 1)[k] == rv.take(i as int)[k]);
                    }
                    assert(rv.take(i + 1)[i as int] == rv[i as int]);
                }
            }
        }
        i = i + 1;
    }
    proof {
        assert(tv.take(tools@.len() as int) =~= tv);
        assert(rv.take(tools@.len() as int) =~= rv);
    }
    proof {
        lemma_failed_iff_every_call_failed(results@);
    }
    MultiCallReply { is_error: all_errored, content }
}

/// A joined result counts as failed exactly when every call failed: one call
/// that succeeded, wherever it stands, makes the whole a success, and a call
/// that failed does so only if no other call succeeded.
pub proof fn lemma_failed_iff_every_call_failed<B>(results: Seq<Result<Vec<B>, String>>)
    ensures
        all_failed(call_views(results)) <==> forall|i: int| 0 <= i < results.len() ==> (#[trigger] results[i]) is Err,
        forall|i: int| 0 <= i < results.len() && (#[trigger] results[i]) is Ok ==> !all_failed(call_views(results)),
{
    let v = call_views(results);
    assert forall|i: int| 0 <= i < results.len() implies ((#[trigger] v[i]) is Err <==> results[i] is Err) by {
    }
    if all_failed(v) {
        assert forall|i: int| 0 <= i < results.len() implies (#[trigger] results[i]) is Err by {
            assert(v[i] is Err);
        }
    }
    if forall|i: int| 0 <= i < results.len() ==> (#[trigger] results[i]) is Err {
        assert forall|i: int| 0 <= i < v.len() implies (#[trigger] v[i]) is Err by {
            assert(results[i] is Err);
        }
    }
    assert forall|i: int| 0 <= i < results.len() && (#[trigger] results[i]) is Ok implies !all_failed(v) by {
        assert(v[i] is Ok);
    }
}

} // verus!
