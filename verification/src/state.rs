//! Selection state of the suggestion list and the editor events that move it.

use vstd::prelude::*;

use crate::matching::Suggestion;

verus! {

/// A key press or edit reported by a shell adapter.
#[derive(Debug, Clone, Copy, PartialEq, Eq, Structural)]
pub enum EditorEvent {
    TextChanged,
    MoveUp,
    MoveDown,
    Accept,
    Cancel,
    DeleteSelected,
}

/// What the engine asks the adapter to do.
#[derive(Debug, Clone, PartialEq, Eq)]
pub enum EngineOutput {
    Suggestions(Vec<Suggestion>),
    Accepted(String),
    Cancelled,
    Delete(String),
}

/// Selection one step up: wraps from the first item (or from no selection)
/// to the last one; nothing when the list is empty.
pub open spec fn previous_spec(selected: Option<usize>, count: nat) -> Option<usize> {
    if count == 0 {
        None
    } else {
        match selected {
            Some(i) if i > 0 => Some((i - 1) as usize),
            _ => Some((count - 1) as usize),
        }
    }
}

/// Selection one step down: the first item when nothing is selected, else
/// the next one modulo the list length; nothing when the list is empty.
pub open spec fn next_spec(selected: Option<usize>, count: nat) -> Option<usize> {
    if count == 0 {
        None
    } else {
        match selected {
            None => Some(0),
            Some(i) => Some(((i + 1) % (count as int)) as usize),
        }
    }
}

/// The suggestion under the selection, if the selection is inside the list.
pub open spec fn selected_item(selected: Option<usize>, suggestions: Seq<Suggestion>) -> Option<
    Seq<char>,
> {
    match selected {
        Some(i) if i < suggestions.len() => Some(suggestions[i as int].text@),
        _ => None,
    }
}

/// The state an event leads to.
pub open spec fn next_selection(
    selected: Option<usize>,
    event: EditorEvent,
    count: nat,
) -> Option<usize> {
    match event {
        EditorEvent::TextChanged => None,
        EditorEvent::MoveUp => previous_spec(selected, count),
        EditorEvent::MoveDown => next_spec(selected, count),
        EditorEvent::Accept => selected,
        EditorEvent::Cancel => None,
        EditorEvent::DeleteSelected => selected,
    }
}

/// The abstract form of an engine output: which variant, and its text.
pub enum OutputView {
    Suggestions(Seq<Seq<char>>),
    Accepted(Seq<char>),
    Cancelled,
    Delete(Seq<char>),
}

impl View for EngineOutput {
    type V = OutputView;

    open spec fn view(&self) -> OutputView {
        match self {
            EngineOutput::Suggestions(v) => OutputView::Suggestions(
                v@.map_values(|x: Suggestion| x.text@),
            ),
            EngineOutput::Accepted(s) => OutputView::Accepted(s@),
            EngineOutput::Cancelled => OutputView::Cancelled,
            EngineOutput::Delete(s) => OutputView::Delete(s@),
        }
    }
}

/// What handling an event reports.
pub open spec fn event_output(
    selected: Option<usize>,
    event: EditorEvent,
    suggestions: Seq<Suggestion>,
) -> Option<OutputView> {
    match event {
        EditorEvent::Accept => match selected_item(selected, suggestions) {
            Some(t) => Some(OutputView::Accepted(t)),
            None => None,
        },
        EditorEvent::DeleteSelected => match selected_item(selected, suggestions) {
            Some(t) => Some(OutputView::Delete(t)),
            None => None,
        },
        EditorEvent::Cancel => Some(OutputView::Cancelled),
        _ => None,
    }
}

/// A selection inside a list of `count` items, or no selection.
pub open spec fn within(selected: Option<usize>, count: nat) -> bool {
    match selected {
        Some(i) => i < count,
        None => true,
    }
}

/// On a non-empty list, moving up or down from a selection inside the list
/// (or from no selection) always lands on an item of the list.
pub proof fn law_moves_stay_in_list(selected: Option<usize>, count: nat)
    requires
        count > 0,
        count <= usize::MAX,
        within(selected, count),
    ensures
        next_selection(selected, EditorEvent::MoveUp, count) matches Some(i) && i < count,
        next_selection(selected, EditorEvent::MoveDown, count) matches Some(i) && i < count,
{
}

/// Down then up, or up then down, returns to the item where it started.
pub proof fn law_up_undoes_down(i: usize, count: nat)
    requires
        i < count <= usize::MAX,
    ensures
        next_selection(
            next_selection(Some(i), EditorEvent::MoveDown, count),
            EditorEvent::MoveUp,
            count,
        ) == Some(i),
        next_selection(
            next_selection(Some(i), EditorEvent::MoveUp, count),
            EditorEvent::MoveDown,
            count,
        ) == Some(i),
{
    let c = count as int;
    let j = i as int;
    if j + 1 < c {
        assert((j + 1) % c == j + 1) by (nonlinear_arith)
            requires
                0 <= j + 1 < c,
        ;
    } else {
        assert((j + 1) % c == 0) by (nonlinear_arith)
            requires
                j + 1 == c,
                c > 0,
        ;
    }
    if j == 0 {
        assert(((c - 1) + 1) % c == 0) by (nonlinear_arith)
            requires
                c > 0,
        ;
    } else {
        assert(j % c == j) by (nonlinear_arith)
            requires
                0 <= j < c,
        ;
    }
}

/// On an empty list there is never a selection after a move, and nothing is
/// accepted or deleted.
pub proof fn law_empty_list_selects_nothing(selected: Option<usize>, event: EditorEvent)
    ensures
        event != EditorEvent::Accept && event != EditorEvent::DeleteSelected ==> next_selection(
            selected,
            event,
            0,
        ) is None,
        event_output(selected, event, Seq::<Suggestion>::empty()) is None || event
            == EditorEvent::Cancel,
{
}

/// Down moves to the next item and Up to the previous one; Down from the
/// last item wraps to the first and Up from the first wraps to the last;
/// from no selection, Down selects the first item and Up the last.
pub proof fn law_up_and_down_step_by_one(i: usize, count: nat)
    requires
        0 < count <= usize::MAX,
    ensures
        i + 1 < count ==> next_selection(Some(i), EditorEvent::MoveDown, count) == Some(
            (i + 1) as usize,
        ),
        i + 1 == count ==> next_selection(Some(i), EditorEvent::MoveDown, count) == Some(0usize),
        0 < i < count ==> next_selection(Some(i), EditorEvent::MoveUp, count) == Some(
            (i - 1) as usize,
        ),
        next_selection(Some(0usize), EditorEvent::MoveUp, count) == Some((count - 1) as usize),
        next_selection(None, EditorEvent::MoveDown, count) == Some(0usize),
        next_selection(None, EditorEvent::MoveUp, count) == Some((count - 1) as usize),
{
    let c = count as int;
    let j = i as int;
    if j + 1 < c {
        assert((j + 1) % c == j + 1) by (nonlinear_arith)
            requires
                0 <= j + 1 < c,
        ;
    }
    if j + 1 == c {
        assert((j + 1) % c == 0) by (nonlinear_arith)
            requires
                j + 1 == c,
                c > 0,
        ;
    }
}

/// Editing the text or cancelling clears the selection; accepting and
/// deleting leave it as it is.
pub proof fn law_events_and_selection(selected: Option<usize>, count: nat)
    ensures
        next_selection(selected, EditorEvent::TextChanged, count) is None,
        next_selection(selected, EditorEvent::Cancel, count) is None,
        next_selection(selected, EditorEvent::Accept, count) == selected,
        next_selection(selected, EditorEvent::DeleteSelected, count) == selected,
{
}

/// Accepting reports exactly the selected suggestion, when the selection is
/// inside the list.
pub proof fn law_accept_reports_selection(i: usize, suggestions: Seq<Suggestion>)
    requires
        i < suggestions.len(),
    ensures
        event_output(Some(i), EditorEvent::Accept, suggestions) == Some(
            OutputView::Accepted(suggestions[i as int].text@),
        ),
        event_output(Some(i), EditorEvent::DeleteSelected, suggestions) == Some(
            OutputView::Delete(suggestions[i as int].text@),
        ),
{
}

/// Which suggestion, if any, is highlighted.
#[derive(Debug)]
pub struct EditorState {
    selected: Option<usize>,
}

impl EditorState {
    /// A selection is never the largest index, which no list can reach.
    #[verifier::type_invariant]
    spec fn selection_in_range(self) -> bool {
        self.selected != Some(usize::MAX)
    }
}

impl View for EditorState {
    type V = Option<usize>;

    closed spec fn view(&self) -> Option<usize> {
        self.selected
    }
}

impl Default for EditorState {
    fn default() -> (s: Self)
        ensures
            s@ is None,
    {
        EditorState { selected: None }
    }
}

impl EditorState {
    pub fn selected(&self) -> (r: Option<usize>)
        ensures
            r == self@,
    {
        self.selected
    }

    /// Applies one editor event against the suggestions currently shown.
    pub fn handle(&mut self, event: EditorEvent, suggestions: &[Suggestion]) -> (r: Option<
        EngineOutput,
    >)
        ensures
            final(self)@ == next_selection(old(self)@, event, suggestions@.len()),
            r matches Some(o) ==> event_output(old(self)@, event, suggestions@) == Some(o@),
            r is None ==> event_output(old(self)@, event, suggestions@) is None,
    {
        proof {
            use_type_invariant(&*self);
        }
        match event {
            EditorEvent::TextChanged => {
                self.selected = None;
                None
            },
            EditorEvent::MoveUp => {
                self.selected = previous(self.selected, suggestions.len());
                None
            },
            EditorEvent::MoveDown => {
                self.selected = next(self.selected, suggestions.len());
                None
            },
            EditorEvent::Accept => match self.selected {
                Some(index) if index < suggestions.len() => Some(
                    EngineOutput::Accepted(suggestions[index].text.clone()),
                ),
                _ => None,
            },
            EditorEvent::Cancel => {
                self.selected = None;
                Some(EngineOutput::Cancelled)
            },
            EditorEvent::DeleteSelected => match self.selected {
                Some(index) if index < suggestions.len() => Some(
                    EngineOutput::Delete(suggestions[index].text.clone()),
                ),
                _ => None,
            },
        }
    }
}

/// One step up with wrap-around.
pub fn previous(selected: Option<usize>, count: usize) -> (r: Option<usize>)
    ensures
        r == previous_spec(selected, count as nat),
{
    if count == 0 {
        None
    } else {
        match selected {
            Some(i) if i > 0 => Some(i - 1),
            _ => Some(count - 1),
        }
    }
}

/// One step down with wrap-around.
pub fn next(selected: Option<usize>, count: usize) -> (r: Option<usize>)
    requires
        selected != Some(usize::MAX),
    ensures
        r == next_spec(selected, count as nat),
{
    if count == 0 {
        None
    } else {
        match selected {
            None => Some(0),
            Some(index) => Some((index + 1) % count),
        }
    }
}

} // verus!
