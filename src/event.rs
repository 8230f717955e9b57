use vstd::prelude::*;
use vstd::string::*;

use crate::node::Node;

verus! {

/// The window-manager notification kinds the adapters subscribe to.
#[derive(Debug, PartialEq, Eq, Structural, Clone, Copy)]
pub enum BspcSubCommand {
    NodeAdd,
    NodeRemove,
}

/// The events the dispatcher consumes, as values of the model.
pub enum EventView {
    AddNode(Seq<char>),
    RemoveNode(Seq<char>),
    ToggleTag(Seq<char>),
    ToggleTagVisibility,
}

/// The events the dispatcher consumes, in arrival order.
#[derive(Debug)]
pub enum Event {
    AddNode(Node),
    RemoveNode(Node),
    ToggleTag(Node),
    ToggleTagVisibility,
}

impl View for Event {
    type V = EventView;

    open spec fn view(&self) -> EventView {
        match self {
            Event::AddNode(n) => EventView::AddNode(n@),
            Event::RemoveNode(n) => EventView::RemoveNode(n@),
            Event::ToggleTag(n) => EventView::ToggleTag(n@),
            Event::ToggleTagVisibility => EventView::ToggleTagVisibility,
        }
    }
}

/// The column of the node identifier in a line of each notification kind.
pub open spec fn node_column(kind: BspcSubCommand) -> nat {
    match kind {
        BspcSubCommand::NodeAdd => 4,
        BspcSubCommand::NodeRemove => 3,
    }
}

/// The event a notification of the given kind stands for.
pub open spec fn notification_event(kind: BspcSubCommand, id: Seq<char>) -> EventView {
    match kind {
        BspcSubCommand::NodeAdd => EventView::AddNode(id),
        BspcSubCommand::NodeRemove => EventView::RemoveNode(id),
    }
}

/// The fields of a line split at every single space, empty fields included;
/// a line with `k` spaces has `k + 1` fields.
pub open spec fn split_spaces(s: Seq<char>) -> Seq<Seq<char>>
    decreases s.len(),
{
    if s.len() == 0 {
        seq![Seq::<char>::empty()]
    } else {
        let prev = split_spaces(s.drop_last());
        if s.last() == ' ' {
            prev.push(Seq::<char>::empty())
        } else {
            prev.update(prev.len() - 1, prev.last().push(s.last()))
        }
    }
}

/// The event a line of the given kind yields: the one for the identifier in
/// the kind's column, or none where the line has too few fields.
pub open spec fn line_event(kind: BspcSubCommand, line: Seq<char>) -> Option<EventView> {
    let fields = split_spaces(line);
    if node_column(kind) < fields.len() {
        Some(notification_event(kind, fields[node_column(kind) as int]))
    } else {
        None
    }
}

/// The event a client request stands for: `show`, or `tag ` followed by an
/// identifier; anything else is unsupported.
pub open spec fn request_event(m: Seq<char>) -> Option<EventView> {
    if m == "show"@ {
        Some(EventView::ToggleTagVisibility)
    } else if m.len() >= 4 && m.take(4) == "tag "@ {
        Some(EventView::ToggleTag(m.skip(4)))
    } else {
        None
    }
}

proof fn lemma_split_nonempty(s: Seq<char>)
    ensures
        split_spaces(s).len() >= 1,
    decreases s.len(),
{
    if s.len() > 0 {
        lemma_split_nonempty(s.drop_last());
    }
}

/// Reading more of a line only adds fields and extends the last one: the
/// fields before the last one of a prefix are fields of the longer prefix.
proof fn lemma_split_prefix(s: Seq<char>, m: int, n: int)
    requires
        0 <= m <= n <= s.len(),
    ensures
        split_spaces(s.take(m)).len() <= split_spaces(s.take(n)).len(),
        forall|j: int|
            0 <= j < split_spaces(s.take(m)).len() - 1 ==> split_spaces(s.take(n))[j]
                == split_spaces(s.take(m))[j],
    decreases n - m,
{
    if m < n {
        lemma_split_prefix(s, m, n - 1);
        assert(s.take(n).drop_last() =~= s.take(n - 1));
        lemma_split_nonempty(s.take(n - 1));
    }
}

impl BspcSubCommand {
    /// The name under which the window manager streams this notification kind.
    pub fn name(&self) -> (r: &'static str)
        ensures
            *self == BspcSubCommand::NodeAdd ==> r@ == "node_add"@,
            *self == BspcSubCommand::NodeRemove ==> r@ == "node_remove"@,
    {
        match self {
            BspcSubCommand::NodeAdd => "node_add",
            BspcSubCommand::NodeRemove => "node_remove",
        }
    }

    /// The column of the node identifier in a notification line of this kind.
    pub fn node_position(&self) -> (r: usize)
        ensures
            r == node_column(*self),
    {
        match self {
            BspcSubCommand::NodeAdd => 4,
            BspcSubCommand::NodeRemove => 3,
        }
    }
}

/// The field at `pos` of a line split at every single space.
pub fn field_at(line: &str, pos: usize) -> (r: Option<String>)
    ensures
        match r {
            Some(f) => pos < split_spaces(line@).len() && f@ == split_spaces(line@)[pos as int],
            None => pos >= split_spaces(line@).len(),
        },
{
    let ghost s = line@;
    let n = line.unicode_len();
    let mut i: usize = 0;
    let mut start: usize = 0;
    let mut k: usize = 0;
    assert(s.take(0) =~= Seq::<char>::empty());
    while i < n
        invariant
            n == s.len(),
            s == line@,
            start <= i <= n,
            k <= pos,
            split_spaces(s.take(i as int)).len() == k + 1,
            split_spaces(s.take(i as int))[k as int] == s.subrange(start as int, i as int),
        decreases n - i,
    {
        let c = line.get_char(i);
        let ghost prefix = s.take(i as int);
        assert(s.take(i + 1).drop_last() =~= prefix);
        if c == ' ' {
            if k == pos {
                proof {
                    lemma_split_prefix(s, i + 1, n as int);
                    assert(s.take(n as int) =~= s);
                }
                return Some(line.substring_char(start, i).to_owned());
            }
            k = k + 1;
            start = i + 1;
            assert(s.subrange(start as int, start as int) =~= Seq::<char>::empty());
        } else {
            assert(s.subrange(start as int, i + 1) =~= s.subrange(start as int, i as int).push(c));
        }
        i = i + 1;
    }
    assert(s.take(n as int) =~= s);
    if k == pos {
        Some(line.substring_char(start, n).to_owned())
    } else {
        None
    }
}

/// The request a client sends to toggle the tagged group's visibility.
pub fn show_request() -> (r: String)
    ensures
        r@ == "show"@,
        request_event(r@) == Some(EventView::ToggleTagVisibility),
{
    "show".to_owned()
}

/// The request a client sends to toggle the tag of `node`.
pub fn tag_request(node: &Node) -> (r: String)
    ensures
        r@ == "tag "@ + node@,
        request_event(r@) == Some(EventView::ToggleTag(node@)),
{
    let r = "tag ".to_owned().concat(node.0.as_str());
    proof {
        lemma_tag_request_round_trip(node@);
    }
    r
}

/// A tag request for any identifier parses back to a tag toggle of that
/// identifier.
pub proof fn lemma_tag_request_round_trip(id: Seq<char>)
    ensures
        request_event("tag "@ + id) == Some(EventView::ToggleTag(id)),
{
    reveal_strlit("tag ");
    reveal_strlit("show");
    let m = "tag "@ + id;
    assert(m[0] == 't');
    assert(m.take(4) =~= "tag "@);
    assert(m.skip(4) =~= id);
    assert(m != "show"@);
}

impl Event {
    /// The event a notification of the given kind about `node_id` stands for.
    pub fn from_bspc(sub_command: &BspcSubCommand, node_id: &str) -> (r: Event)
        ensures
            r@ == notification_event(*sub_command, node_id@),
    {
        match sub_command {
            BspcSubCommand::NodeAdd => Event::AddNode(Node(node_id.to_owned())),
            BspcSubCommand::NodeRemove => Event::RemoveNode(Node(node_id.to_owned())),
        }
    }

    /// Parses one notification line of the given kind; `None` where the line
    /// has no field in the kind's column.
    pub fn parse_bspc_line(sub_command: &BspcSubCommand, line: &str) -> (r: Option<Event>)
        ensures
            match r {
                Some(e) => line_event(*sub_command, line@) == Some(e@),
                None => line_event(*sub_command, line@) is None,
            },
    {
        match field_at(line, sub_command.node_position()) {
            Some(id) => Some(Event::from_bspc(sub_command, id.as_str())),
            None => None,
        }
    }

    /// Parses one client request; `None` where it is unsupported.
    pub fn parse_request(message: &str) -> (r: Option<Event>)
        ensures
            match r {
                Some(e) => request_event(message@) == Some(e@),
                None => request_event(message@) is None,
            },
    {
        let m = message.to_owned();
        if m == "show".to_owned() {
            return Some(Event::ToggleTagVisibility);
        }
        let n = message.unicode_len();
        if n >= 4 && message.substring_char(0, 4).to_owned() == "tag ".to_owned() {
            Some(Event::ToggleTag(Node(message.substring_char(4, n).to_owned())))
        } else {
            None
        }
    }
}

} // verus!
