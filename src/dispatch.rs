use vstd::prelude::*;

use crate::event::{Event, EventView};
use crate::node::{Node, TagStatus};
use crate::state::{State, StateView, ids_of};

verus! {

/// Border width that marks a tagged window.
pub const TAGGED_BORDER_WIDTH: usize = 3;

/// A command for the window manager, as a value of the model.
pub enum CommandView {
    SetBorderWidth(Seq<char>, usize),
    ResetBorderWidth(Seq<char>),
    ToggleVisibility(Seq<char>),
}

/// A command the dispatcher issues to the window manager.
#[derive(Debug)]
pub enum Command {
    /// Set the window's border to the given width.
    SetBorderWidth(Node, usize),
    /// Set the window's border back to the configured default width.
    ResetBorderWidth(Node),
    /// Hide the window if shown, show it if hidden.
    ToggleVisibility(Node),
}

impl View for Command {
    type V = CommandView;

    open spec fn view(&self) -> CommandView {
        match self {
            Command::SetBorderWidth(n, w) => CommandView::SetBorderWidth(n@, *w),
            Command::ResetBorderWidth(n) => CommandView::ResetBorderWidth(n@),
            Command::ToggleVisibility(n) => CommandView::ToggleVisibility(n@),
        }
    }
}

/// The models of a sequence of commands.
pub open spec fn command_views(cmds: Seq<Command>) -> Seq<CommandView> {
    cmds.map_values(|c: Command| c@)
}

/// The state after one event.
pub open spec fn next_state(s: StateView, e: EventView) -> StateView {
    match e {
        EventView::AddNode(n) => StateView {
            tagged: s.tagged,
            untagged: if s.tagged.contains(n) {
                s.untagged
            } else {
                s.untagged.insert(n)
            },
            tag_shown: s.tag_shown,
        },
        EventView::RemoveNode(n) => StateView {
            tagged: s.tagged.remove(n),
            untagged: s.untagged.remove(n),
            tag_shown: s.tag_shown,
        },
        EventView::ToggleTag(n) => if s.tagged.contains(n) {
            StateView {
                tagged: s.tagged.remove(n),
                untagged: s.untagged.insert(n),
                tag_shown: s.tag_shown,
            }
        } else {
            StateView {
                tagged: s.tagged.insert(n),
                untagged: s.untagged.remove(n),
                tag_shown: s.tag_shown,
            }
        },
        EventView::ToggleTagVisibility => StateView {
            tagged: s.tagged,
            untagged: s.untagged,
            tag_shown: !s.tag_shown,
        },
    }
}

/// The state after a sequence of events, taken in order.
pub open spec fn run_events(s: StateView, events: Seq<EventView>) -> StateView
    decreases events.len(),
{
    if events.len() == 0 {
        s
    } else {
        run_events(next_state(s, events[0]), events.drop_first())
    }
}

/// The commands a tag toggle of `n` issues in state `s`: leaving the tagged
/// set resets the border; entering it sets the tagged border and, while the
/// group is hidden, hides the window too.
pub open spec fn toggle_commands(s: StateView, n: Seq<char>) -> Seq<CommandView> {
    if s.tagged.contains(n) {
        seq![CommandView::ResetBorderWidth(n)]
    } else if s.tag_shown {
        seq![CommandView::SetBorderWidth(n, TAGGED_BORDER_WIDTH)]
    } else {
        seq![
            CommandView::SetBorderWidth(n, TAGGED_BORDER_WIDTH),
            CommandView::ToggleVisibility(n),
        ]
    }
}

/// The commands are visibility toggles of exactly the identifiers in `ids`,
/// one for each, in any order.
pub open spec fn toggles_each_once(cmds: Seq<CommandView>, ids: Set<Seq<char>>) -> bool {
    &&& cmds.no_duplicates()
    &&& forall|i: int| 0 <= i < cmds.len() ==> (#[trigger] cmds[i]) is ToggleVisibility
    &&& forall|id: Seq<char>|
        ids.contains(id) <==> cmds.contains(CommandView::ToggleVisibility(id))
}

/// Some command of the sequence changes a window's visibility.
pub open spec fn affects_visibility(cmds: Seq<CommandView>) -> bool {
    exists|i: int| 0 <= i < cmds.len() && (#[trigger] cmds[i]) is ToggleVisibility
}

/// One event keeps the tagged and untagged sets disjoint.
pub proof fn lemma_step_keeps_disjoint(s: StateView, e: EventView)
    requires
        s.disjoint(),
    ensures
        next_state(s, e).disjoint(),
{
}

/// Any sequence of events, taken in order from a state whose sets are
/// disjoint, leaves the tagged and untagged sets disjoint.
pub proof fn lemma_events_keep_disjoint(s: StateView, events: Seq<EventView>)
    requires
        s.disjoint(),
    ensures
        run_events(s, events).disjoint(),
    decreases events.len(),
{
    if events.len() > 0 {
        lemma_step_keeps_disjoint(s, events[0]);
        lemma_events_keep_disjoint(next_state(s, events[0]), events.drop_first());
    }
}

/// Removing a window twice in a row leaves the same state as removing it once.
pub proof fn lemma_remove_idempotent(s: StateView, n: Seq<char>)
    ensures
        next_state(next_state(s, EventView::RemoveNode(n)), EventView::RemoveNode(n))
            == next_state(s, EventView::RemoveNode(n)),
{
    let once = next_state(s, EventView::RemoveNode(n));
    let twice = next_state(once, EventView::RemoveNode(n));
    assert(twice.tagged =~= once.tagged);
    assert(twice.untagged =~= once.untagged);
}

/// Toggling the tag of a tracked window twice in a row restores the state,
/// and of the two toggles only the one into the tagged set can change the
/// window's visibility, which it does exactly when the group is hidden.
pub proof fn lemma_toggle_twice(s: StateView, n: Seq<char>)
    requires
        s.disjoint(),
        s.tracks(n),
    ensures
        next_state(next_state(s, EventView::ToggleTag(n)), EventView::ToggleTag(n)) == s,
        ({
            let s1 = next_state(s, EventView::ToggleTag(n));
            let first = toggle_commands(s, n);
            let second = toggle_commands(s1, n);
            &&& s1.tag_shown == s.tag_shown
            &&& s.tagged.contains(n) ==> !affects_visibility(first) && (affects_visibility(
                second,
            ) <==> !s.tag_shown)
            &&& !s.tagged.contains(n) ==> !affects_visibility(second) && (affects_visibility(
                first,
            ) <==> !s.tag_shown)
        }),
{
    let s1 = next_state(s, EventView::ToggleTag(n));
    let s2 = next_state(s1, EventView::ToggleTag(n));
    assert(s2.tagged =~= s.tagged);
    assert(s2.untagged =~= s.untagged);
    let first = toggle_commands(s, n);
    let second = toggle_commands(s1, n);
    if s.tagged.contains(n) {
        assert(!s1.tagged.contains(n));
        if !s.tag_shown {
            assert(second[1] is ToggleVisibility);
        }
    } else {
        assert(s1.tagged.contains(n));
        if !s.tag_shown {
            assert(first[1] is ToggleVisibility);
        }
    }
}

/// A tag toggle of a window that is not tracked tags it, leaves the untagged
/// set as it was, and sets the tagged border.
pub proof fn lemma_toggle_untracked(s: StateView, n: Seq<char>)
    requires
        !s.tracks(n),
    ensures
        next_state(s, EventView::ToggleTag(n)).tagged == s.tagged.insert(n),
        next_state(s, EventView::ToggleTag(n)).untagged == s.untagged,
        next_state(s, EventView::ToggleTag(n)).tag_shown == s.tag_shown,
        toggle_commands(s, n)[0] == CommandView::SetBorderWidth(n, TAGGED_BORDER_WIDTH),
{
    assert(s.untagged.remove(n) =~= s.untagged);
}

/// A visibility toggle flips the flag once and leaves both sets as they were,
/// however many windows are tagged.
pub proof fn lemma_visibility_flips_once(s: StateView)
    ensures
        next_state(s, EventView::ToggleTagVisibility).tag_shown == !s.tag_shown,
        next_state(s, EventView::ToggleTagVisibility).tagged == s.tagged,
        next_state(s, EventView::ToggleTagVisibility).untagged == s.untagged,
        next_state(next_state(s, EventView::ToggleTagVisibility), EventView::ToggleTagVisibility)
            == s,
{
}

/// Applies one event to the state and returns the commands it issues.
pub fn dispatch(state: &mut State, event: Event) -> (cmds: Vec<Command>)
    ensures
        final(state)@ == next_state(old(state)@, event@),
        final(state)@.disjoint(),
        match event@ {
            EventView::ToggleTag(n) => command_views(cmds@) == toggle_commands(old(state)@, n),
            EventView::ToggleTagVisibility => toggles_each_once(
                command_views(cmds@),
                old(state)@.tagged,
            ),
            _ => cmds@.len() == 0,
        },
{
    let mut cmds: Vec<Command> = Vec::new();
    match event {
        Event::AddNode(n) => {
            state.add_node(n);
        },
        Event::RemoveNode(n) => {
            state.remove_node(&n);
        },
        Event::ToggleTag(n) => {
            let id = n.duplicate();
            match state.toggle_tag(n) {
                TagStatus::Tagged => {
                    cmds.push(Command::SetBorderWidth(id.duplicate(), TAGGED_BORDER_WIDTH));
                    if !state.is_tag_shown() {
                        cmds.push(Command::ToggleVisibility(id));
                    }
                },
                TagStatus::Untagged => {
                    cmds.push(Command::ResetBorderWidth(id));
                },
            }
            assert(command_views(cmds@) =~= toggle_commands(old(state)@, id@));
        },
        Event::ToggleTagVisibility => {
            let nodes = state.toggle_tag_visibility();
            let mut i: usize = 0;
            while i < nodes.len()
                invariant
                    i <= nodes@.len(),
                    cmds@.len() == i,
                    forall|k: int|
                        0 <= k < i ==> cmds@[k]@ == CommandView::ToggleVisibility(nodes@[k]@),
                decreases nodes@.len() - i,
            {
                cmds.push(Command::ToggleVisibility(nodes[i].duplicate()));
                i = i + 1;
            }
            proof {
                let cv = command_views(cmds@);
                assert forall|a: int, b: int| 0 <= a < cv.len() && 0 <= b < cv.len() && a != b
                    implies cv[a] != cv[b] by {
                    assert(cv[a] == CommandView::ToggleVisibility(nodes@[a]@));
                    assert(cv[b] == CommandView::ToggleVisibility(nodes@[b]@));
                }
                assert forall|id: Seq<char>| ids_of(nodes@).contains(id) implies cv.contains(
                    CommandView::ToggleVisibility(id),
                ) by {
                    let k = choose|k: int| 0 <= k < nodes@.len() && nodes@[k]@ == id;
                    assert(cv[k] == CommandView::ToggleVisibility(id));
                }
                assert forall|id: Seq<char>| cv.contains(CommandView::ToggleVisibility(id)) implies ids_of(
                    nodes@,
                ).contains(id) by {
                    let k = choose|k: int| 0 <= k < cv.len() && cv[k] == CommandView::ToggleVisibility(id);
                    assert(nodes@[k]@ == id);
                }
            }
        },
    }
    cmds
}

} // verus!
