//! What the providers of memory say, put together.
use vstd::prelude::*;

use crate::text::{join, joined, labelled, push_to, trim, trimmed};

verus! {

/// What opens the recall of a turn.
pub const MEMORY_CONTEXT_OPEN: &'static str = "<memory-context>";

/// What closes the recall of a turn.
pub const MEMORY_CONTEXT_CLOSE: &'static str = "</memory-context>";

/// The blocks that hold anything, in order.
pub open spec fn said_blocks(blocks: Seq<Option<Seq<char>>>) -> Seq<Seq<char>>
    decreases blocks.len(),
{
    if blocks.len() == 0 {
        Seq::empty()
    } else {
        match blocks.last() {
            Some(block) if block.len() > 0 => said_blocks(blocks.drop_last()).push(block),
            _ => said_blocks(blocks.drop_last()),
        }
    }
}

/// The recalls that hold more than white space, in order.
pub open spec fn recalled(hits: Seq<Option<Seq<char>>>) -> Seq<Seq<char>>
    decreases hits.len(),
{
    if hits.len() == 0 {
        Seq::empty()
    } else {
        match hits.last() {
            Some(hit) if trim(hit).len() > 0 => recalled(hits.drop_last()).push(hit),
            _ => recalled(hits.drop_last()),
        }
    }
}

/// The system-prompt section: each provider's block, in order, with a blank line between
/// two. `blocks` holds what each provider answered, nothing for one that is not available.
pub fn system_prompt(blocks: &Vec<Option<String>>) -> (r: String)
    ensures
        r@ == join(said_blocks(blocks.deep_view()), "\n\n"@),
{
    let mut parts: Vec<String> = Vec::new();
    let mut i: usize = 0;
    let ghost all = blocks.deep_view();
    assert(parts.deep_view() =~= said_blocks(all.take(0)));
    while i < blocks.len()
        invariant
            i <= blocks@.len(),
            all == blocks.deep_view(),
            parts.deep_view() == said_blocks(all.take(i as int)),
        decreases blocks@.len() - i,
    {
        assert(all.take(i + 1).drop_last() =~= all.take(i as int));
        match &blocks[i] {
            Some(block) => {
                if !block.as_str().is_empty() {
                    push_to(&mut parts, block.clone());
                }
            },
            None => {},
        }
        i = i + 1;
    }
    assert(all.take(i as int) =~= all);
    joined(&parts, "\n\n")
}

/// The recall of a turn: nothing where nothing was recalled, else all of it in one fence.
pub open spec fn fenced(hits: Seq<Seq<char>>) -> Seq<char> {
    let body = join(hits, "\n\n"@);
    if body.len() == 0 {
        Seq::empty()
    } else {
        MEMORY_CONTEXT_OPEN@ + "\n"@ + body + "\n"@ + MEMORY_CONTEXT_CLOSE@
    }
}

/// The recall of a turn, to go with the user's message. `hits` holds what each provider
/// recalled.
pub fn prefetch_all(hits: &Vec<Option<String>>) -> (r: String)
    ensures
        r@ == fenced(recalled(hits.deep_view())),
{
    let mut parts: Vec<String> = Vec::new();
    let mut i: usize = 0;
    let ghost all = hits.deep_view();
    assert(parts.deep_view() =~= recalled(all.take(0)));
    while i < hits.len()
        invariant
            i <= hits@.len(),
            all == hits.deep_view(),
            parts.deep_view() == recalled(all.take(i as int)),
        decreases hits@.len() - i,
    {
        assert(all.take(i + 1).drop_last() =~= all.take(i as int));
        match &hits[i] {
            Some(hit) => {
                if !trimmed(hit.as_str()).as_str().is_empty() {
                    push_to(&mut parts, hit.clone());
                }
            },
            None => {},
        }
        i = i + 1;
    }
    assert(all.take(i as int) =~= all);
    let body = joined(&parts, "\n\n");
    if body.as_str().is_empty() {
        return String::new();
    }
    let mut out = labelled(MEMORY_CONTEXT_OPEN, "\n");
    out.append(body.as_str());
    out.append("\n");
    out.append(MEMORY_CONTEXT_CLOSE);
    out
}

} // verus!
