//! Splits streamed text at `<think>` and `</think>` tags, also where a tag is cut by
//! a chunk boundary.
use vstd::prelude::*;

use crate::text::chars_of;

verus! {

/// A piece of the stream, told apart by whether it stood between think tags.
#[derive(Debug, PartialEq)]
pub enum FilterAction {
    EmitText(String),
    EmitThinking(String),
}

/// The model of an action.
pub ghost enum ActionView {
    Text(Seq<char>),
    Thinking(Seq<char>),
}

impl DeepView for FilterAction {
    type V = ActionView;

    open spec fn deep_view(&self) -> ActionView {
        match self {
            FilterAction::EmitText(t) => ActionView::Text(t@),
            FilterAction::EmitThinking(t) => ActionView::Thinking(t@),
        }
    }
}

/// Where the filter stands: between think tags or not, and how many characters of
/// the awaited tag the input ended with.
pub ghost struct FilterView {
    pub inside: bool,
    pub matched: nat,
}

/// The filter in the middle of its work: where it stands and what it has put out.
pub ghost struct Scan {
    pub filter: FilterView,
    pub actions: Seq<ActionView>,
}

/// The tag that ends the present stretch.
pub open spec fn awaited(inside: bool) -> Seq<char> {
    if inside {
        "</think>"@
    } else {
        "<think>"@
    }
}

/// The actions with one more character, which extends the last action where that is
/// of the same sort.
pub open spec fn emit(actions: Seq<ActionView>, inside: bool, c: char) -> Seq<ActionView> {
    if actions.len() == 0 {
        seq![
            if inside {
                ActionView::Thinking(seq![c])
            } else {
                ActionView::Text(seq![c])
            },
        ]
    } else {
        match actions.last() {
            ActionView::Thinking(t) if inside => actions.drop_last().push(
                ActionView::Thinking(t.push(c)),
            ),
            ActionView::Text(t) if !inside => actions.drop_last().push(
                ActionView::Text(t.push(c)),
            ),
            _ => actions.push(
                if inside {
                    ActionView::Thinking(seq![c])
                } else {
                    ActionView::Text(seq![c])
                },
            ),
        }
    }
}

/// The actions with the characters of `s` emitted in order.
pub open spec fn emit_all(actions: Seq<ActionView>, inside: bool, s: Seq<char>) -> Seq<ActionView>
    decreases s.len(),
{
    if s.len() == 0 {
        actions
    } else {
        emit(emit_all(actions, inside, s.drop_last()), inside, s.last())
    }
}

/// The filter after one more character of input.
pub open spec fn step(scan: Scan, c: char) -> Scan {
    let inside = scan.filter.inside;
    let matched = scan.filter.matched;
    let tag = awaited(inside);
    if matched < tag.len() && c == tag[matched as int] {
        if matched + 1 == tag.len() {
            Scan { filter: FilterView { inside: !inside, matched: 0 }, actions: scan.actions }
        } else {
            Scan { filter: FilterView { inside, matched: matched + 1 }, actions: scan.actions }
        }
    } else {
        let held = emit_all(scan.actions, inside, tag.take(matched as int));
        if c == '<' {
            Scan { filter: FilterView { inside, matched: 1 }, actions: held }
        } else {
            Scan { filter: FilterView { inside, matched: 0 }, actions: emit(held, inside, c) }
        }
    }
}

/// The filter after the characters of `s`.
pub open spec fn run(scan: Scan, s: Seq<char>) -> Scan
    decreases s.len(),
{
    if s.len() == 0 {
        scan
    } else {
        step(run(scan, s.drop_last()), s.last())
    }
}

/// What the actions put out as thinking, or as text.
pub open spec fn emitted(actions: Seq<ActionView>, thinking: bool) -> Seq<char>
    decreases actions.len(),
{
    if actions.len() == 0 {
        Seq::empty()
    } else {
        emitted(actions.drop_last(), thinking) + match actions.last() {
            ActionView::Thinking(t) => if thinking {
                t
            } else {
                Seq::empty()
            },
            ActionView::Text(t) => if thinking {
                Seq::empty()
            } else {
                t
            },
        }
    }
}

/// The filter before any input.
pub open spec fn initial_filter() -> FilterView {
    FilterView { inside: false, matched: 0 }
}

/// What is held back as the beginning of a tag.
pub open spec fn held_back(filter: FilterView) -> Seq<ActionView> {
    emit_all(Seq::empty(), filter.inside, awaited(filter.inside).take(filter.matched as int))
}

/// What a whole text puts out, the end of the input included.
pub open spec fn split_stream(s: Seq<char>, thinking: bool) -> Seq<char> {
    let scan = run(Scan { filter: initial_filter(), actions: Seq::empty() }, s);
    emitted(scan.actions, thinking) + emitted(held_back(scan.filter), thinking)
}

fn emit_char(actions: &mut Vec<FilterAction>, inside: bool, c: char)
    ensures
        final(actions).deep_view() == emit(old(actions).deep_view(), inside, c),
{
    let ghost before = actions.deep_view();
    match actions.pop() {
        None => {
            let mut piece = String::new();
            piece.push(c);
            assert(piece@ =~= seq![c]);
            if inside {
                actions.push(FilterAction::EmitThinking(piece));
            } else {
                actions.push(FilterAction::EmitText(piece));
            }
            assert(actions.deep_view() =~= emit(before, inside, c));
        },
        Some(FilterAction::EmitThinking(t)) if inside => {
            let mut piece = t;
            piece.push(c);
            actions.push(FilterAction::EmitThinking(piece));
            assert(actions.deep_view() =~= emit(before, inside, c));
        },
        Some(FilterAction::EmitText(t)) if !inside => {
            let mut piece = t;
            piece.push(c);
            actions.push(FilterAction::EmitText(piece));
            assert(actions.deep_view() =~= emit(before, inside, c));
        },
        Some(last) => {
            actions.push(last);
            let mut piece = String::new();
            piece.push(c);
            assert(piece@ =~= seq![c]);
            if inside {
                actions.push(FilterAction::EmitThinking(piece));
            } else {
                actions.push(FilterAction::EmitText(piece));
            }
            assert(actions.deep_view() =~= emit(before, inside, c));
        },
    }
}

fn tag_chars(inside: bool) -> (r: Vec<char>)
    ensures
        r@ == awaited(inside),
        r@.len() >= 2,
        r@[0] == '<',
{
    proof {
        reveal_strlit("</think>");
        reveal_strlit("<think>");
    }
    if inside {
        chars_of("</think>")
    } else {
        chars_of("<think>")
    }
}

fn emit_held(actions: &mut Vec<FilterAction>, inside: bool, count: usize)
    requires
        count <= awaited(inside).len(),
    ensures
        final(actions).deep_view() == emit_all(
            old(actions).deep_view(),
            inside,
            awaited(inside).take(count as int),
        ),
{
    let tag = tag_chars(inside);
    let mut i: usize = 0;
    let ghost before = actions.deep_view();
    while i < count
        invariant
            i <= count <= tag@.len(),
            tag@ == awaited(inside),
            actions.deep_view() == emit_all(before, inside, tag@.take(i as int)),
        decreases count - i,
    {
        emit_char(actions, inside, tag[i]);
        assert(tag@.take(i + 1).drop_last() =~= tag@.take(i as int));
        i = i + 1;
    }
}

/// Tells thinking from text in a stream that arrives in chunks.
#[derive(Debug)]
pub struct StreamingThinkFilter {
    inside: bool,
    matched: usize,
}

impl View for StreamingThinkFilter {
    type V = FilterView;

    closed spec fn view(&self) -> FilterView {
        FilterView { inside: self.inside, matched: self.matched as nat }
    }
}

impl StreamingThinkFilter {
    /// Whether the count of matched characters falls short of a tag.
    pub closed spec fn well_formed(&self) -> bool {
        self.matched < awaited(self.inside).len()
    }

    /// A filter that has seen nothing.
    pub fn new() -> (r: StreamingThinkFilter)
        ensures
            r@ == initial_filter(),
            r.well_formed(),
    {
        proof {
            reveal_strlit("<think>");
        }
        StreamingThinkFilter { inside: false, matched: 0 }
    }

    /// Takes the next chunk and puts out what it decides.
    pub fn process(&mut self, text: &str) -> (r: Vec<FilterAction>)
        requires
            old(self).well_formed(),
        ensures
            final(self).well_formed(),
            r.deep_view() == run(
                Scan { filter: old(self)@, actions: Seq::empty() },
                text@,
            ).actions,
            final(self)@ == run(Scan { filter: old(self)@, actions: Seq::empty() }, text@).filter,
    {
        let chars = chars_of(text);
        let mut out: Vec<FilterAction> = Vec::new();
        let ghost start = Scan { filter: self@, actions: Seq::empty() };
        let mut i: usize = 0;
        assert(out.deep_view() =~= Seq::empty());
        while i < chars.len()
            invariant
                i <= chars@.len(),
                self.well_formed(),
                run(start, chars@.take(i as int)) == (Scan {
                    filter: self@,
                    actions: out.deep_view(),
                }),
            decreases chars@.len() - i,
        {
            let c = chars[i];
            let tag = tag_chars(self.inside);
            proof {
                reveal_strlit("</think>");
                reveal_strlit("<think>");
                assert(chars@.take(i + 1).drop_last() =~= chars@.take(i as int));
            }
            if c == tag[self.matched] {
                if self.matched + 1 == tag.len() {
                    self.inside = !self.inside;
                    self.matched = 0;
                } else {
                    self.matched = self.matched + 1;
                }
            } else {
                emit_held(&mut out, self.inside, self.matched);
                if c == '<' {
                    self.matched = 1;
                } else {
                    self.matched = 0;
                    emit_char(&mut out, self.inside, c);
                }
            }
            i = i + 1;
        }
        assert(chars@.take(i as int) =~= text@);
        out
    }

    /// Puts out what was held back as the beginning of a tag.
    pub fn flush(&mut self) -> (r: Vec<FilterAction>)
        requires
            old(self).well_formed(),
        ensures
            final(self).well_formed(),
            r.deep_view() == held_back(old(self)@),
            final(self)@ == (FilterView { matched: 0, ..old(self)@ }),
    {
        let mut out: Vec<FilterAction> = Vec::new();
        assert(out.deep_view() =~= Seq::empty());
        emit_held(&mut out, self.inside, self.matched);
        self.matched = 0;
        out
    }
}

/// What the actions put out as thinking, or as text.
pub fn emitted_text(actions: &Vec<FilterAction>, thinking: bool) -> (r: String)
    ensures
        r@ == emitted(actions.deep_view(), thinking),
{
    let mut out = String::new();
    let mut i: usize = 0;
    while i < actions.len()
        invariant
            i <= actions@.len(),
            out@ == emitted(actions.deep_view().take(i as int), thinking),
        decreases actions@.len() - i,
    {
        let ghost all = actions.deep_view();
        assert(all.take(i + 1).drop_last() =~= all.take(i as int));
        assert(out@ + Seq::<char>::empty() =~= out@);
        match &actions[i] {
            FilterAction::EmitThinking(t) => {
                if thinking {
                    out.append(t.as_str());
                }
            },
            FilterAction::EmitText(t) => {
                if !thinking {
                    out.append(t.as_str());
                }
            },
        }
        i = i + 1;
    }
    assert(actions.deep_view().take(i as int) =~= actions.deep_view());
    out
}

/// One more character is one more of its sort.
pub proof fn emitted_emit(actions: Seq<ActionView>, inside: bool, c: char, thinking: bool)
    ensures
        emitted(emit(actions, inside, c), thinking) == if thinking == inside {
            emitted(actions, thinking).push(c)
        } else {
            emitted(actions, thinking)
        },
{
    reveal_with_fuel(emitted, 2);
    let after = emit(actions, inside, c);
    if actions.len() == 0 {
        assert(after.drop_last() =~= Seq::empty());
    } else {
        match actions.last() {
            ActionView::Thinking(t) if inside => {
                assert(after.drop_last() =~= actions.drop_last());
                assert(emitted(actions.drop_last(), true) + t.push(c) =~= (emitted(
                    actions.drop_last(),
                    true,
                ) + t).push(c));
            },
            ActionView::Text(t) if !inside => {
                assert(after.drop_last() =~= actions.drop_last());
                assert(emitted(actions.drop_last(), false) + t.push(c) =~= (emitted(
                    actions.drop_last(),
                    false,
                ) + t).push(c));
            },
            _ => {
                assert(after.drop_last() =~= actions);
            },
        }
    }
    if thinking == inside {
        assert(emitted(after, thinking) =~= emitted(actions, thinking).push(c));
    } else {
        assert(emitted(after, thinking) =~= emitted(actions, thinking));
    }
}

/// More characters are more of their sort.
pub proof fn emitted_emit_all(actions: Seq<ActionView>, inside: bool, s: Seq<char>, thinking: bool)
    ensures
        emitted(emit_all(actions, inside, s), thinking) == emitted(actions, thinking) + (
        if thinking == inside {
            s
        } else {
            Seq::empty()
        }),
    decreases s.len(),
{
    if s.len() == 0 {
        assert(emitted(actions, thinking) + Seq::<char>::empty() =~= emitted(actions, thinking));
        assert(s =~= Seq::empty());
    } else {
        emitted_emit_all(actions, inside, s.drop_last(), thinking);
        emitted_emit(emit_all(actions, inside, s.drop_last()), inside, s.last(), thinking);
        if thinking == inside {
            assert((emitted(actions, thinking) + s.drop_last()).push(s.last()) =~= emitted(
                actions,
                thinking,
            ) + s);
        }
    }
}

/// Two texts leave the filter where the second leaves it behind the first.
pub proof fn run_append(scan: Scan, a: Seq<char>, b: Seq<char>)
    ensures
        run(scan, a + b) == run(run(scan, a), b),
    decreases b.len(),
{
    if b.len() == 0 {
        assert(a + b =~= a);
    } else {
        run_append(scan, a, b.drop_last());
        assert((a + b).drop_last() =~= a + b.drop_last());
    }
}

/// What was put out before changes nothing of what a text puts out.
pub proof fn run_from(filter: FilterView, actions: Seq<ActionView>, s: Seq<char>, thinking: bool)
    ensures
        run(Scan { filter, actions }, s).filter == run(
            Scan { filter, actions: Seq::empty() },
            s,
        ).filter,
        emitted(run(Scan { filter, actions }, s).actions, thinking) == emitted(actions, thinking)
            + emitted(run(Scan { filter, actions: Seq::empty() }, s).actions, thinking),
    decreases s.len(),
{
    let none = Seq::<ActionView>::empty();
    if s.len() == 0 {
        assert(emitted(none, thinking) =~= Seq::empty());
        assert(emitted(actions, thinking) + Seq::<char>::empty() =~= emitted(actions, thinking));
    } else {
        let init = s.drop_last();
        run_from(filter, actions, init, thinking);
        let x = run(Scan { filter, actions }, init);
        let y = run(Scan { filter, actions: none }, init);
        let inside = x.filter.inside;
        let tag = awaited(inside);
        let held = tag.take(x.filter.matched as int);
        emitted_emit_all(x.actions, inside, held, thinking);
        emitted_emit_all(y.actions, inside, held, thinking);
        emitted_emit(emit_all(x.actions, inside, held), inside, s.last(), thinking);
        emitted_emit(emit_all(y.actions, inside, held), inside, s.last(), thinking);
        let base = emitted(actions, thinking);
        let more = emitted(y.actions, thinking);
        assert((base + more) + Seq::<char>::empty() =~= base + (more + Seq::<char>::empty()));
        assert((base + more) + held =~= base + (more + held));
        assert(((base + more) + held).push(s.last()) =~= base + (more + held).push(s.last()));
    }
}

/// Where a stream is cut into chunks makes no difference: two chunks leave the filter
/// where their concatenation leaves it, and put out the same text and the same
/// thinking.
pub proof fn chunking_is_immaterial(
    filter: FilterView,
    first: Seq<char>,
    second: Seq<char>,
    thinking: bool,
)
    ensures
        ({
            let whole = run(Scan { filter, actions: Seq::empty() }, first + second);
            let one = run(Scan { filter, actions: Seq::empty() }, first);
            let two = run(Scan { filter: one.filter, actions: Seq::empty() }, second);
            &&& whole.filter == two.filter
            &&& emitted(whole.actions, thinking) == emitted(one.actions, thinking) + emitted(
                two.actions,
                thinking,
            )
        }),
{
    let one = run(Scan { filter, actions: Seq::empty() }, first);
    run_append(Scan { filter, actions: Seq::empty() }, first, second);
    run_from(one.filter, one.actions, second, thinking);
}

/// Text without a `<` passes through as it is, and nothing of it is thinking.
pub proof fn plain_text_passes(s: Seq<char>)
    requires
        forall|i: int| 0 <= i < s.len() ==> s[i] != '<',
    ensures
        split_stream(s, false) == s,
        split_stream(s, true) == Seq::<char>::empty(),
{
    plain_run(s);
    let scan = run(Scan { filter: initial_filter(), actions: Seq::empty() }, s);
    assert(awaited(false).take(0) =~= Seq::empty());
    assert(emitted(held_back(scan.filter), false) =~= Seq::empty());
    assert(emitted(held_back(scan.filter), true) =~= Seq::empty());
    assert(split_stream(s, false) =~= s);
    assert(split_stream(s, true) =~= Seq::empty());
}

/// A filter that awaits a thinking tag is left as it was by text without a `<`, which
/// passes.
pub proof fn plain_run(s: Seq<char>)
    requires
        forall|i: int| 0 <= i < s.len() ==> s[i] != '<',
    ensures
        ({
            let scan = run(Scan { filter: initial_filter(), actions: Seq::empty() }, s);
            &&& scan.filter == initial_filter()
            &&& emitted(scan.actions, false) == s
            &&& emitted(scan.actions, true) == Seq::<char>::empty()
        }),
    decreases s.len(),
{
    let start = Scan { filter: initial_filter(), actions: Seq::empty() };
    if s.len() == 0 {
        assert(s =~= Seq::empty());
    } else {
        plain_run(s.drop_last());
        let before = run(start, s.drop_last());
        reveal_strlit("<think>");
        assert(awaited(false).take(0) =~= Seq::empty());
        assert(awaited(false)[0] == '<');
        assert(s.last() == s[s.len() - 1]);
        emitted_emit(before.actions, false, s.last(), false);
        emitted_emit(before.actions, false, s.last(), true);
        assert(s.drop_last().push(s.last()) =~= s);
    }
}

} // verus!
