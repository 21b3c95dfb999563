//! The `list_tools` toolset: page through the names of the tools in the
//! agent's arsenal. Ungated: it shows up in every mode.
use vstd::prelude::*;

use crate::text::string_views;

use super::common::TextReply;
use super::json::json_string_array;

verus! {

/// Parameters of `list_tools`.
pub struct ListToolsArgs {
    /// Number of tool names to skip from the start of the arsenal.
    pub offset: u32,
    /// Maximum number of tool names to return.
    pub count: u32,
}

pub open spec fn min_nat(a: nat, b: nat) -> nat {
    if a <= b { a } else { b }
}

/// The page of `s` that skips `offset` items and then keeps at most `count`.
pub open spec fn page<T>(s: Seq<T>, offset: nat, count: nat) -> Seq<T> {
    s.subrange(min_nat(offset, s.len()) as int, min_nat(offset + count, s.len()) as int)
}

/// Pages join up: the page of `a` items at `offset` followed by the page of
/// `b` items right after it is the page of `a + b` items at `offset`.
pub proof fn lemma_pages_concatenate<T>(s: Seq<T>, offset: nat, a: nat, b: nat)
    ensures
        page(s, offset, a) + page(s, offset + a, b) == page(s, offset, a + b),
{
    assert(page(s, offset, a) + page(s, offset + a, b) =~= page(s, offset, a + b));
}


/// A page holds the items from `offset` on, in order, and stops short of
/// `count` items only where the sequence ends: its length is
/// `min(count, len - offset)` (zero past the end) and its `k`-th item is item
/// `offset + k`. So every item lies on some page.
pub proof fn lemma_page_shape<T>(s: Seq<T>, offset: nat, count: nat)
    ensures
        page(s, offset, count).len() == (if offset >= s.len() { 0 } else { min_nat(count, (s.len() - offset) as nat) }),
        forall|k: int| 0 <= k < page(s, offset, count).len() ==> #[trigger] page(s, offset, count)[k] == s[offset + k],
        forall|i: int| 0 <= i < s.len() ==> #[trigger] page(s, i as nat, 1) == seq![s[i]],
{
    assert forall|i: int| 0 <= i < s.len() implies #[trigger] page(s, i as nat, 1) == seq![s[i]] by {
        assert(page(s, i as nat, 1) =~= seq![s[i]]);
    }
}

/// The page of `names` that `args` selects.
pub fn page_names(names: &Vec<String>, args: &ListToolsArgs) -> (r: Vec<String>)
    ensures
        string_views(r@) == page(string_views(names@), args.offset as nat, args.count as nat),
        r@.len() == (if args.offset >= names@.len() { 0 } else { min_nat(args.count as nat, (names@.len() - args.offset) as nat) }),
        forall|k: int| 0 <= k < r@.len() ==> (#[trigger] r@[k])@ == names@[args.offset + k]@,
{
    let len = names.len();
    let start: usize = if (args.offset as usize) < len { args.offset as usize } else { len };
    let room = len - start;
    let take: usize = if (args.count as usize) < room { args.count as usize } else { room };
    let mut out: Vec<String> = Vec::new();
    let mut k: usize = 0;
    while k < take
        invariant
            len == names@.len(),
            start <= len,
            take <= len - start,
            k <= take,
            string_views(out@) == string_views(names@).subrange(start as int, start + k),
        decreases take - k,
    {
        let name = names[start + k].clone();
        proof {
            assert(name@ == string_views(names@)[start + k]);
            assert(string_views(out@.push(name)) =~= string_views(out@).push(name@));
            assert(string_views(names@).subrange(start as int, start + k + 1) =~= string_views(names@).subrange(start as int, start + k).push(string_views(names@)[start + k]));
        }
        out.push(name);
        k = k + 1;
    }
    proof {
        assert(start == min_nat(args.offset as nat, len as nat));
        assert(start + take == min_nat(args.offset as nat + args.count as nat, len as nat));
        lemma_page_shape(string_views(names@), args.offset as nat, args.count as nat);
        assert forall|k: int| 0 <= k < out@.len() implies (#[trigger] out@[k])@ == names@[args.offset + k]@ by {
            assert(string_views(out@)[k] == out@[k]@);
            assert(string_views(names@)[args.offset + k] == names@[args.offset + k]@);
        }
    }
    out
}

/// Calls `serde_json::to_string` on a list of strings. serde_json writes a
/// compact array of string literals, escaping as `json_escaped_char` says;
/// serializing strings into memory cannot fail, so the result is always
/// `Some`.
#[verifier::external_body]
fn encode_names(items: &Vec<String>) -> (r: Option<String>)
    ensures
        r is Some,
        r matches Some(s) ==> s@ == json_string_array(string_views(items@)),
{
    serde_json::to_string(items).ok()
}

/// The body of a listing reply: the encoded page, or an empty JSON array when
/// encoding failed.
pub open spec fn body_text(encoded: Option<Seq<char>>) -> Seq<char> {
    match encoded {
        Some(s) => s,
        None => "[]"@,
    }
}

/// The listing body for an encoding outcome.
pub fn listing_body(encoded: Option<String>) -> (r: String)
    ensures
        r@ == body_text(match encoded {
            Some(s) => Some(s@),
            None => None,
        }),
{
    match encoded {
        Some(s) => s,
        None => "[]".to_string(),
    }
}

/// The reply of `list_tools` given the outcome of listing the arsenal: the
/// selected page of names as a JSON array of strings, or the listing error.
pub fn list_tools_reply(listed: Result<Vec<String>, String>, args: &ListToolsArgs) -> (r: TextReply)
    ensures
        listed matches Ok(names) ==> !r.is_error
            && r.text@ == json_string_array(page(string_views(names@), args.offset as nat, args.count as nat)),
        listed matches Err(e) ==> r.is_error && r.text@ == e@,
{
    match listed {
        Ok(names) => {
            let page = page_names(&names, args);
            let encoded = encode_names(&page);
            TextReply::success(listing_body(encoded))
        },
        Err(e) => TextReply::error(e),
    }
}

} // verus!
