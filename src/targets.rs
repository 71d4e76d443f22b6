//! Choosing which containers a command acts on.
use vstd::prelude::*;
use crate::logs::{display_name, display_name_of};
use crate::text::{clean_name, split_tokens, tokens, views};

verus! {

/// Which containers a command acts on.
pub enum TargetSelection {
    /// Every running container, named by its id.
    All,
    /// The containers named on the command line.
    Containers(Vec<String>),
    /// The containers of the named stacks.
    Stacks(Vec<String>),
}

/// Why no target set could be chosen.
#[derive(Debug, Clone, Copy, PartialEq, Eq, Structural)]
pub enum UsageError {
    /// Neither containers, nor stacks, nor all were asked for.
    NoTargets,
}

/// Chooses the target set: all running containers when `all` is set, else the
/// containers given, else the stacks given; with none of them, a usage error.
pub fn select_targets(containers: Option<Vec<String>>, stacks: Option<Vec<String>>, all: bool) -> (r:
    Result<TargetSelection, UsageError>)
    ensures
        all ==> r matches Ok(TargetSelection::All),
        !all && containers is Some ==> (r matches Ok(TargetSelection::Containers(v)) && v@
            == containers->Some_0@),
        !all && containers is None && stacks is Some ==> (r matches Ok(
            TargetSelection::Stacks(v),
        ) && v@ == stacks->Some_0@),
        !all && containers is None && stacks is None ==> r == Err::<TargetSelection, UsageError>(
            UsageError::NoTargets,
        ),
{
    if all {
        Ok(TargetSelection::All)
    } else if let Some(c) = containers {
        Ok(TargetSelection::Containers(c))
    } else if let Some(s) = stacks {
        Ok(TargetSelection::Stacks(s))
    } else {
        Err(UsageError::NoTargets)
    }
}

impl TargetSelection {
    /// Whether the targets are raw ids, whose names are looked up for display.
    pub fn targets_are_ids(&self) -> (r: bool)
        ensures
            r == (self is All),
    {
        match self {
            TargetSelection::All => true,
            _ => false,
        }
    }
}

/// Splits the runtime's list of ids, one or more per line, into the ids.
pub fn parse_id_list(output: &str) -> (r: Vec<String>)
    ensures
        views(r@) == tokens(output@),
{
    split_tokens(output)
}

/// The filter that selects the containers of a stack by its project label.
pub open spec fn stack_filter_of(stack: Seq<char>) -> Seq<char> {
    "label=com.docker.compose.project="@ + stack
}

/// Builds the filter that selects the containers of `stack`.
pub fn stack_filter(stack: &str) -> (r: String)
    ensures
        r@ == stack_filter_of(stack@),
{
    String::from_str("label=com.docker.compose.project=").concat(stack)
}

/// The names of a stack's containers, from their ids and the name lookups of
/// those ids, in order: each id gives the name its lookup printed, or the id
/// itself where the lookup failed or printed no name.
pub open spec fn members_of(ids: Seq<Seq<char>>, lookups: Seq<Option<Seq<char>>>) -> Seq<Seq<char>> {
    Seq::new(ids.len(), |i: int| display_name_of(ids[i], true, lookups[i]))
}

/// The view of a sequence of optional strings.
pub open spec fn option_views(v: Seq<Option<String>>) -> Seq<Option<Seq<char>>> {
    v.map_values(
        |o: Option<String>|
            match o {
                Some(s) => Some(s@),
                None => None,
            },
    )
}

/// Collects the names of a stack's containers from their ids and the lookups
/// of those ids: `None` for a lookup that failed, else what the runtime printed.
pub fn stack_members(ids: &Vec<String>, lookups: &Vec<Option<String>>) -> (r: Vec<String>)
    requires
        ids@.len() == lookups@.len(),
    ensures
        views(r@) == members_of(views(ids@), option_views(lookups@)),
{
    let ghost iv = views(ids@);
    let ghost lv = option_views(lookups@);
    let mut out: Vec<String> = Vec::new();
    let mut i: usize = 0;
    while i < ids.len()
        invariant
            iv == views(ids@),
            lv == option_views(lookups@),
            ids@.len() == lookups@.len(),
            i <= ids@.len(),
            views(out@) == members_of(iv, lv).take(i as int),
        decreases ids@.len() - i,
    {
        let name = match &lookups[i] {
            Some(text) => display_name(ids[i].as_str(), true, Some(text.as_str())),
            None => display_name(ids[i].as_str(), true, None),
        };
        let ghost before = out@;
        out.push(name);
        assert(views(out@) =~= views(before).push(name@));
        assert(members_of(iv, lv).take(i + 1) =~= members_of(iv, lv).take(i as int).push(name@));
        i = i + 1;
    }
    assert(members_of(iv, lv).take(ids@.len() as int) =~= members_of(iv, lv));
    out
}

/// A group resolves to one entry per running container that its label
/// selects, in the order of the ids: the name that the lookup of the id
/// printed, without its leading slash, or the id itself where the lookup
/// failed or printed no name. No container is left out.
pub proof fn lemma_group_members(listing: Seq<char>, lookups: Seq<Option<Seq<char>>>)
    requires
        lookups.len() == tokens(listing).len(),
    ensures
        members_of(tokens(listing), lookups).len() == tokens(listing).len(),
        forall|i: int|
            0 <= i < lookups.len() && #[trigger] lookups[i] is Some && clean_name(
                lookups[i]->Some_0,
            ).len() > 0 ==> members_of(tokens(listing), lookups)[i] == clean_name(
                lookups[i]->Some_0,
            ),
        forall|i: int|
            0 <= i < lookups.len() && (#[trigger] lookups[i] is None || clean_name(
                lookups[i]->Some_0,
            ).len() == 0) ==> members_of(tokens(listing), lookups)[i] == tokens(listing)[i],
{
}

/// The lists `ls` one after another.
pub open spec fn concat_all(ls: Seq<Seq<Seq<char>>>) -> Seq<Seq<char>>
    decreases ls.len(),
{
    if ls.len() == 0 {
        Seq::empty()
    } else {
        concat_all(ls.drop_last()) + ls.last()
    }
}

/// The views of lists of strings.
pub open spec fn list_views(ls: Seq<Vec<String>>) -> Seq<Seq<Seq<char>>> {
    ls.map_values(|l: Vec<String>| views(l@))
}

/// Joins the member lists of several stacks, in order.
pub fn join_members(lists: &Vec<Vec<String>>) -> (r: Vec<String>)
    ensures
        views(r@) == concat_all(list_views(lists@)),
{
    let ghost lv = list_views(lists@);
    let mut out: Vec<String> = Vec::new();
    let mut i: usize = 0;
    assert(lv.take(0) =~= Seq::<Seq<Seq<char>>>::empty());
    assert(views(out@) =~= Seq::<Seq<char>>::empty());
    while i < lists.len()
        invariant
            lv == list_views(lists@),
            i <= lists@.len(),
            views(out@) == concat_all(lv.take(i as int)),
        decreases lists@.len() - i,
    {
        let list = &lists[i];
        let ghost start = out@;
        let mut j: usize = 0;
        while j < list.len()
            invariant
                j <= list@.len(),
                views(out@) == views(start) + views(list@).take(j as int),
            decreases list@.len() - j,
        {
            let ghost before = out@;
            out.push(list[j].clone());
            assert(views(out@) =~= views(before).push(list@[j as int]@));
            assert(views(list@).take(j + 1) =~= views(list@).take(j as int).push(list@[j as int]@));
            j = j + 1;
        }
        assert(views(list@).take(list@.len() as int) =~= views(list@));
        assert(lv.take(i + 1).drop_last() =~= lv.take(i as int));
        assert(lv.take(i + 1).last() == views(list@));
        i = i + 1;
    }
    assert(lv.take(lists@.len() as int) =~= lv);
    out
}

} // verus!
