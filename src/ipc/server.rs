//! The dispatch of one request: the in-memory part of serving a
//! connection. The caller holds the store while it runs, then delivers the
//! returned event and writes the response once it no longer does.

use vstd::prelude::*;
use crate::bridge::{DisplayInfo, StateChangeEvent};
use crate::closure::{select, split_by};
use crate::error::StoreError;
use crate::ipc::protocol::{AddCommand, Command, DisplayDto, NodeDto, Response, is_dto_of, node_of_add};
use crate::main_display_spec;
use crate::node::BarNode;
use crate::state::{
    BarState,
    Layout,
    add_error,
    all_nodes,
    display_request,
    locate,
    named_flags,
    node_named,
    nodes_on,
    set_outcome,
    with_added,
    with_removed,
};
use crate::text::text_eq;
use crate::wf::{
    layout_wf,
    lemma_add_wf,
    lemma_count_all_nodes,
    lemma_named_at_most_once,
    lemma_named_once,
    lemma_select_named,
};
use crate::state::{lemma_added_node_found, lemma_all_nodes_contains, lemma_located};
use vstd::string::*;

verus! {

/// The display that an `add` request places its node on: the one it
/// names, else its parent's, else the main display `main`.
pub open spec fn add_target(l: Layout, c: AddCommand, main: u32) -> u32 {
    match c.display {
        Some(d) => d,
        None => match c.parent {
            Some(p) => match node_named(l, p@) {
                Some(q) => q.display,
                None => main,
            },
            None => main,
        },
    }
}

/// The nodes that a query returns: those named `name` where a name is
/// given, else those of `display` where a display is given, else all.
pub open spec fn query_nodes(l: Layout, name: Option<String>, display: Option<u32>) -> Seq<BarNode> {
    match name {
        Some(x) => select(all_nodes(l), named_flags(all_nodes(l), x@)),
        None => match display {
            Some(d) => nodes_on(l, d),
            None => all_nodes(l),
        },
    }
}

/// Whether `v` holds the records of the nodes of `ns`, in order.
pub open spec fn dtos_of(v: Seq<NodeDto>, ns: Seq<BarNode>) -> bool {
    &&& v.len() == ns.len()
    &&& forall|k: int| 0 <= k < v.len() ==> is_dto_of(#[trigger] v[k], ns[k])
}

/// Whether `v` lists the displays `ds`, in order.
pub open spec fn lists_displays(v: Seq<DisplayDto>, ds: Seq<DisplayInfo>) -> bool {
    &&& v.len() == ds.len()
    &&& forall|k: int|
        0 <= k < v.len() ==> #[trigger] v[k] == (DisplayDto {
            id: ds[k].id,
            name: ds[k].name,
            is_main: ds[k].is_main,
        })
}

/// Whether `r` is an error response with text `m`.
pub open spec fn is_error(r: Response, m: Seq<char>) -> bool {
    r matches Response::Error { message } && message@ == m
}

/// The event that a successful `set` of node `before` to `after` gives: a
/// move where the display changed, else an update.
pub open spec fn set_event(before: BarNode, after: BarNode) -> StateChangeEvent {
    if before.display != after.display {
        StateChangeEvent::NodeMoved {
            old_display: before.display,
            new_display: after.display,
            node: after,
        }
    } else {
        StateChangeEvent::NodeUpdated { display: after.display, node: after }
    }
}

fn flags_named(s: &Vec<BarNode>, name: &str) -> (r: Vec<bool>)
    ensures
        r@ == named_flags(s@, name@),
{
    let mut r: Vec<bool> = Vec::new();
    let mut k: usize = 0;
    while k < s.len()
        invariant
            k <= s@.len(),
            r@ =~= named_flags(s@, name@).take(k as int),
        decreases s@.len() - k,
    {
        r.push(text_eq(s[k].name.as_str(), name));
        k = k + 1;
    }
    r
}

fn to_dtos(v: Vec<BarNode>) -> (r: Vec<NodeDto>)
    ensures
        dtos_of(r@, v@),
{
    let ghost s = v@;
    let n = v.len();
    let mut rest = v;
    let mut out: Vec<NodeDto> = Vec::new();
    let mut k: usize = 0;
    while k < n
        invariant
            n == s.len(),
            k <= n,
            rest@ == s.skip(k as int),
            out@.len() == k,
            forall|j: int| 0 <= j < k ==> is_dto_of(#[trigger] out@[j], s[j]),
        decreases n - k,
    {
        let x = rest.remove(0);
        assert(rest@ =~= s.skip(k + 1));
        out.push(NodeDto::from_node(x));
        k = k + 1;
    }
    out
}

fn list_displays(ds: &Vec<DisplayInfo>) -> (r: Vec<DisplayDto>)
    ensures
        lists_displays(r@, ds@),
{
    let mut out: Vec<DisplayDto> = Vec::new();
    let mut k: usize = 0;
    while k < ds.len()
        invariant
            k <= ds@.len(),
            out@.len() == k,
            forall|j: int|
                0 <= j < k ==> #[trigger] out@[j] == (DisplayDto {
                    id: ds@[j].id,
                    name: ds@[j].name,
                    is_main: ds@[j].is_main,
                }),
        decreases ds@.len() - k,
    {
        out.push(DisplayDto { id: ds[k].id, name: ds[k].name.clone(), is_main: ds[k].is_main });
        k = k + 1;
    }
    out
}

fn error_response(e: &StoreError) -> (r: Response)
    ensures
        is_error(r, e.message_spec()),
{
    Response::Error { message: e.message() }
}

/// Serves one request against the store, `displays` being the known
/// displays. `request` is the decoded request line, or the decoder's
/// complaint, which gives an error response and leaves the store as it is.
/// Returns the response and the change event to deliver, if any.
pub fn handle_command(
    state: &mut BarState,
    displays: &Vec<DisplayInfo>,
    request: Result<Command, String>,
) -> (r: (Response, Option<StateChangeEvent>))
    requires
        old(state).wf(),
    ensures
        final(state).wf(),
        match request {
            Err(e) => final(state)@ == old(state)@ && r.1 is None && is_error(
                r.0,
                "invalid command: "@ + e@,
            ),
            Ok(Command::Add(c)) => {
                let n = node_of_add(c, add_target(old(state)@, c, main_display_spec(displays@)));
                match add_error(old(state)@, n) {
                    Some(err) => final(state)@ == old(state)@ && r.1 is None && is_error(
                        r.0,
                        err.message_spec(),
                    ),
                    None => final(state)@ == with_added(old(state)@, n) && r.0 is Success && r.1
                        == Some(StateChangeEvent::NodeAdded { display: n.display, node: n }),
                }
            },
            Ok(Command::SetProperties { name, properties }) => match display_request(
                properties@,
            ) {
                Err(err) => final(state)@ == old(state)@ && r.1 is None && is_error(
                    r.0,
                    err.message_spec(),
                ),
                Ok(req) => match locate(old(state)@, name@) {
                    None => final(state)@ == old(state)@ && r.1 is None && is_error(
                        r.0,
                        StoreError::NotFound { name }.message_spec(),
                    ),
                    Some((i, k)) => match set_outcome(
                        old(state)@,
                        i,
                        k,
                        req,
                        properties@,
                        main_display_spec(displays@),
                    ) {
                        Err(err) => final(state)@ == old(state)@ && r.1 is None && is_error(
                            r.0,
                            err.message_spec(),
                        ),
                        Ok((l, n)) => final(state)@ == l && r.0 is Success && r.1 == Some(
                            set_event(old(state)@[i].1[k], n),
                        ),
                    },
                },
            },
            Ok(Command::Remove { name }) => match locate(old(state)@, name@) {
                None => final(state)@ == old(state)@ && r.1 is None && is_error(
                    r.0,
                    StoreError::NotFound { name }.message_spec(),
                ),
                Some((i, k)) => final(state)@ == with_removed(old(state)@, i, k) && r.0 is Success
                    && r.1 == Some(
                    StateChangeEvent::NodeRemoved { display: old(state)@[i].1[k].display, name },
                ),
            },
            Ok(Command::Query { name, display }) => final(state)@ == old(state)@ && r.1 is None && (
            r.0 matches Response::QueryResult { nodes } && dtos_of(
                nodes@,
                query_nodes(old(state)@, name, display),
            )),
            Ok(Command::Displays) => final(state)@ == old(state)@ && r.1 is None && (
            r.0 matches Response::DisplayList { displays: ds } && lists_displays(ds@, displays@)),
        },
{
    let cmd = match request {
        Ok(cmd) => cmd,
        Err(e) => {
            let mut message = "invalid command: ".to_owned();
            message.append(e.as_str());
            return (Response::Error { message }, None);
        },
    };
    match cmd {
        Command::Add(c) => {
            let main = main_display_id_of(displays);
            let display = match c.display {
                Some(d) => d,
                None => match &c.parent {
                    Some(p) => match state.find_node_ref(p.as_str()) {
                        Some(q) => q.display,
                        None => main,
                    },
                    None => main,
                },
            };
            let node = c.into_node(display);
            let snapshot = node.clone();
            match state.add_node(node) {
                Ok(()) => (
                    Response::Success,
                    Some(StateChangeEvent::NodeAdded { display, node: snapshot }),
                ),
                Err(e) => (error_response(&e), None),
            }
        },
        Command::SetProperties { name, properties } => {
            let before = match state.find_node_ref(name.as_str()) {
                Some(q) => q.display,
                None => 0,
            };
            let main = main_display_id_of(displays);
            match state.set_properties(name.as_str(), &properties, main) {
                Ok(node) => {
                    let after = node.display;
                    if before != after {
                        (
                            Response::Success,
                            Some(
                                StateChangeEvent::NodeMoved {
                                    old_display: before,
                                    new_display: after,
                                    node,
                                },
                            ),
                        )
                    } else {
                        (
                            Response::Success,
                            Some(StateChangeEvent::NodeUpdated { display: after, node }),
                        )
                    }
                },
                Err(e) => (error_response(&e), None),
            }
        },
        Command::Remove { name } => match state.remove_node(name.as_str()) {
            Ok(node) => {
                let display = node.display;
                (Response::Success, Some(StateChangeEvent::NodeRemoved { display, name }))
            },
            Err(e) => (error_response(&e), None),
        },
        Command::Query { name, display } => {
            let nodes = match name {
                Some(x) => {
                    let all = state.get_nodes();
                    let flags = flags_named(&all, x.as_str());
                    let (hits, _rest) = split_by(all, &flags);
                    to_dtos(hits)
                },
                None => match display {
                    Some(d) => to_dtos(state.get_nodes_for_display(d)),
                    None => to_dtos(state.get_nodes()),
                },
            };
            (Response::QueryResult { nodes }, None)
        },
        Command::Displays => (Response::DisplayList { displays: list_displays(displays) }, None),
    }
}

fn main_display_id_of(displays: &Vec<DisplayInfo>) -> (r: u32)
    ensures
        r == main_display_spec(displays@),
{
    crate::main_display_id(displays)
}

/// A node that the store accepts is, afterwards, the one node that a query
/// by its name returns, with exactly the attributes it was added with.
pub proof fn lemma_added_node_queried(l: Layout, n: BarNode, name: String, display: Option<u32>)
    requires
        layout_wf(l),
        add_error(l, n) is None,
        name@ == n.name@,
    ensures
        query_nodes(with_added(l, n), Some(name), display) == seq![n],
{
    let x = n.name@;
    let l2 = with_added(l, n);
    lemma_add_wf(l, n);
    lemma_added_node_found(l, n);
    lemma_located(l2, x);
    let (i, k) = locate(l2, x)->0;
    lemma_named_once(l2, i, k);
    lemma_count_all_nodes(l2, x);
    lemma_all_nodes_contains(l2, i, k);
    let all = all_nodes(l2);
    let b = choose|b: int| 0 <= b < all.len() && all[b] == n;
    lemma_select_named(all, x);
    let sel = select(all, named_flags(all, x));
    assert(sel.len() == 1);
    let a = choose|a: int| 0 <= a < all.len() && sel[0] == all[a] && all[a].name@ == x;
    lemma_named_at_most_once(all, x, a, b);
    assert(sel =~= seq![n]);
}

} // verus!
