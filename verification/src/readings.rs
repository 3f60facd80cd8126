//! What the messages of a conversation say, whichever way they are put.
use vstd::prelude::*;

use crate::json::JsonView;
use crate::message::{ContentBlock, Message, Role};

verus! {

/// What a block says.
pub ghost enum Reading {
    Text(Seq<char>),
    Call { id: Seq<char>, name: Seq<char>, input: JsonView },
    Answer { id: Seq<char>, content: Seq<char>, failed: bool },
    Image { media_type: Seq<char>, data: Seq<char> },
}

/// What a block says to a model: reasoning is not said again, and a reference to stored data
/// says nothing itself.
pub open spec fn meaning(block: ContentBlock) -> Option<Reading> {
    match block {
        ContentBlock::Text { text, .. } => Some(Reading::Text(text@)),
        ContentBlock::ToolUse { id, name, input } => Some(
            Reading::Call { id: id@, name: name@, input: input.deep_view() },
        ),
        ContentBlock::ToolResult { tool_use_id, content, is_error } => Some(
            Reading::Answer {
                id: tool_use_id@,
                content: content@,
                failed: is_error == Some(true),
            },
        ),
        ContentBlock::Image { media_type, data } => Some(
            Reading::Image { media_type: media_type@, data: data@ },
        ),
        _ => None,
    }
}

/// What blocks say, in their order.
pub open spec fn meanings(blocks: Seq<ContentBlock>) -> Seq<Reading>
    decreases blocks.len(),
{
    if blocks.len() == 0 {
        Seq::empty()
    } else {
        match meaning(blocks.last()) {
            Some(reading) => meanings(blocks.drop_last()).push(reading),
            None => meanings(blocks.drop_last()),
        }
    }
}

/// A turn of a conversation: who speaks, and what is said.
pub ghost struct Turn {
    pub speaker: Seq<char>,
    pub said: Seq<Reading>,
}

/// The turns of a conversation in which anything is said, with the model under the given
/// name.
pub open spec fn turns(messages: Seq<Message>, model: Seq<char>) -> Seq<Turn>
    decreases messages.len(),
{
    if messages.len() == 0 {
        Seq::empty()
    } else {
        let before = turns(messages.drop_last(), model);
        let said = meanings(messages.last().content@);
        if said.len() == 0 {
            before
        } else {
            before.push(
                Turn {
                    speaker: match messages.last().role {
                        Role::User => "user"@,
                        Role::Assistant => model,
                    },
                    said,
                },
            )
        }
    }
}

} // verus!
