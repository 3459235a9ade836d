//! The directory tree of a depot: what is to be created, in which order, and
//! what came of it.

use vstd::prelude::*;
use vstd::utf8::encode_utf8;

use crate::error::{Error, ErrorView};
use crate::manifest::DepotManifest;
use crate::order::{
    bytes_before, first_difference_decides, is_stable_order, item_before, key_views,
    one_item_comes_first, stable_order, stable_order_is_unique,
};
use crate::paths::{
    check_for_collisions, collision_free, filenames, paths_are_normal, relative_path,
    tells_first_collision, PathOptions,
};
use crate::proto::{text_of, value_or, FileMapping};

verus! {

/// Marks a file that may be executed.
pub const FLAG_EXECUTABLE: u32 = 0x20;

/// Marks a directory.
pub const FLAG_DIRECTORY: u32 = 0x40;

/// Marks a symlink.
pub const FLAG_SYMLINK: u32 = 0x200;

/// One thing to create, by its path relative to where the depot is installed.
#[derive(Debug, Clone)]
pub enum PrepareAction {
    Directory { path: String },
    /// A symlink to another path of the depot.
    Symlink { path: String, target: String },
    /// A file of its final size.
    File { path: String, size: u64, executable: bool },
}

/// A [`PrepareAction`] over mathematical values.
pub enum ActionView {
    Directory { path: Seq<char> },
    Symlink { path: Seq<char>, target: Seq<char> },
    File { path: Seq<char>, size: u64, executable: bool },
}

impl View for PrepareAction {
    type V = ActionView;

    open spec fn view(&self) -> ActionView {
        match *self {
            PrepareAction::Directory { path } => ActionView::Directory { path: path@ },
            PrepareAction::Symlink { path, target } => ActionView::Symlink {
                path: path@,
                target: target@,
            },
            PrepareAction::File { path, size, executable } => ActionView::File {
                path: path@,
                size,
                executable,
            },
        }
    }
}

/// What is to be created for a depot.
#[derive(Debug)]
pub struct PreparePlan {
    /// What to create, in this order.
    pub actions: Vec<PrepareAction>,
    /// What is wrong with the mapping that would come next, if anything is:
    /// the actions are carried out before this is reported.
    pub failure: Option<Error>,
}

/// The actions of a plan, over mathematical values.
pub open spec fn action_views(actions: Seq<PrepareAction>) -> Seq<ActionView> {
    actions.map_values(|action: PrepareAction| action@)
}

impl View for PreparePlan {
    type V = (Seq<ActionView>, Option<ErrorView>);

    open spec fn view(&self) -> (Seq<ActionView>, Option<ErrorView>) {
        (
            action_views(self.actions@),
            match self.failure {
                Some(e) => Some(e@),
                None => None,
            },
        )
    }
}

/// The flags of a mapping mark it as a directory.
pub open spec fn is_directory(mapping: FileMapping) -> bool {
    value_or(mapping.flags, 0) & FLAG_DIRECTORY != 0
}

/// The flags of a mapping mark it as a symlink.
pub open spec fn is_symlink(mapping: FileMapping) -> bool {
    value_or(mapping.flags, 0) & FLAG_SYMLINK != 0
}

/// What is to be created for a mapping, if anything: nothing where it has no
/// name, a directory or a symlink where its flags say so, else a file. A
/// symlink that leads nowhere is refused.
pub open spec fn action_of(mapping: FileMapping, options: PathOptions) -> Result<
    Option<ActionView>,
    ErrorView,
> {
    match text_of(mapping.filename) {
        None => Ok(None),
        Some(name) => {
            let path = relative_path(options, name);
            if is_directory(mapping) {
                Ok(Some(ActionView::Directory { path }))
            } else if is_symlink(mapping) {
                let target = value_or(text_of(mapping.linktarget), Seq::empty());
                if target.len() == 0 {
                    Err(ErrorView::Other("symlink "@ + name + " has no linktarget"@))
                } else {
                    Ok(Some(ActionView::Symlink { path, target: relative_path(options, target) }))
                }
            } else {
                Ok(
                    Some(
                        ActionView::File {
                            path,
                            size: value_or(mapping.size, 0),
                            executable: value_or(mapping.flags, 0) & FLAG_EXECUTABLE != 0,
                        },
                    ),
                )
            }
        },
    }
}

/// What a mapping becomes: nothing where it has no name; a directory where bit
/// 0x40 of its flags is set, a symlink where that is not but bit 0x200 is, else
/// a file. Path and target are made by the same options, a file has the size
/// that the manifest gives, and bit 0x20 makes it executable.
pub proof fn mapping_becomes_what_its_flags_say(mapping: FileMapping, options: PathOptions)
    ensures
        mapping.filename is None ==> action_of(mapping, options) == Ok::<
            Option<ActionView>,
            ErrorView,
        >(None),
        mapping.filename is Some ==> {
            let path = relative_path(options, mapping.filename->0@);
            let flags: u32 = match mapping.flags {
                Some(flags) => flags,
                None => 0,
            };
            if flags & 0x40 != 0 {
                action_of(mapping, options) == Ok::<Option<ActionView>, ErrorView>(
                    Some(ActionView::Directory { path }),
                )
            } else if flags & 0x200 != 0 {
                if mapping.linktarget is Some && mapping.linktarget->0@.len() > 0 {
                    action_of(mapping, options) == Ok::<Option<ActionView>, ErrorView>(
                        Some(
                            ActionView::Symlink {
                                path,
                                target: relative_path(options, mapping.linktarget->0@),
                            },
                        ),
                    )
                } else {
                    action_of(mapping, options) is Err
                }
            } else {
                action_of(mapping, options) == Ok::<Option<ActionView>, ErrorView>(
                    Some(
                        ActionView::File {
                            path,
                            size: match mapping.size {
                                Some(size) => size,
                                None => 0,
                            },
                            executable: flags & 0x20 != 0,
                        },
                    ),
                )
            }
        },
{
}

/// A link follows its file: where the target that a manifest gives for a
/// symlink is the name of one of its files, the symlink that is created leads
/// to the path at which that file is. Where the case is kept the target is as
/// the manifest gives it, with a slash for each backslash.
pub proof fn link_follows_its_file(
    link: FileMapping,
    file: FileMapping,
    options: PathOptions,
)
    requires
        action_of(link, options) is Ok,
        action_of(link, options)->Ok_0 is Some,
        action_of(link, options)->Ok_0->0 is Symlink,
        link.linktarget is Some,
    ensures
        ({
            let target = action_of(link, options)->Ok_0->0->target;
            let given = link.linktarget->0@;
            &&& file.filename is Some && file.filename->0@ == given && (action_of(
                file,
                options,
            ) matches Ok(Some(ActionView::File { .. }))) ==> target == action_of(
                file,
                options,
            )->Ok_0->0->File_path
            &&& !options.lowercase ==> target.len() == given.len() && forall|i: int|
                0 <= i < given.len() ==> #[trigger] target[i] == if given[i] == '\\' {
                    '/'
                } else {
                    given[i]
                }
        }),
{
    let folded = PathOptions { lowercase: true };
    if !options.lowercase {
        paths_are_normal(options, folded, link.linktarget->0@);
    }
}

/// What is to be created for the mappings in the order that `order` names,
/// up to the first that is refused.
pub open spec fn actions_in(
    mappings: Seq<FileMapping>,
    options: PathOptions,
    order: Seq<usize>,
) -> (Seq<ActionView>, Option<ErrorView>)
    decreases order.len(),
{
    if order.len() == 0 {
        (Seq::empty(), None)
    } else {
        let (actions, failure) = actions_in(mappings, options, order.drop_last());
        if failure is Some {
            (actions, failure)
        } else {
            match action_of(mappings[order.last() as int], options) {
                Err(e) => (actions, Some(e)),
                Ok(None) => (actions, None),
                Ok(Some(action)) => (actions.push(action), None),
            }
        }
    }
}

/// The bytes of a mapping's name; of none where it has no name.
pub open spec fn name_bytes(mapping: FileMapping) -> Seq<u8> {
    encode_utf8(value_or(text_of(mapping.filename), Seq::empty()))
}

/// What mappings are sorted by.
pub open spec fn name_keys(mappings: Seq<FileMapping>) -> Seq<Seq<u8>> {
    mappings.map_values(|mapping: FileMapping| name_bytes(mapping))
}

/// `plan` creates the tree of the mappings: by name, byte by byte, and those
/// with the same name as the manifest has them.
pub open spec fn is_plan_of(
    plan: (Seq<ActionView>, Option<ErrorView>),
    mappings: Seq<FileMapping>,
    options: PathOptions,
) -> bool {
    exists|order: Seq<usize>| #[trigger]
        is_stable_order(name_keys(mappings), order) && plan == actions_in(mappings, options, order)
}

/// The tree of a depot is created in one order only: two plans of the same
/// mappings are the same plan.
pub proof fn plan_is_determined(
    a: (Seq<ActionView>, Option<ErrorView>),
    b: (Seq<ActionView>, Option<ErrorView>),
    mappings: Seq<FileMapping>,
    options: PathOptions,
)
    requires
        is_plan_of(a, mappings, options),
        is_plan_of(b, mappings, options),
    ensures
        a == b,
{
    let keys = name_keys(mappings);
    let first = choose|order: Seq<usize>| #[trigger]
        is_stable_order(keys, order) && a == actions_in(mappings, options, order);
    let second = choose|order: Seq<usize>| #[trigger]
        is_stable_order(keys, order) && b == actions_in(mappings, options, order);
    stable_order_is_unique(keys, first, second);
}

/// A plan in which nothing is refused creates something for every mapping that
/// has a name.
pub proof fn plan_covers_every_mapping(
    plan: (Seq<ActionView>, Option<ErrorView>),
    mappings: Seq<FileMapping>,
    options: PathOptions,
    i: int,
)
    requires
        is_plan_of(plan, mappings, options),
        plan.1 is None,
        0 <= i < mappings.len() <= usize::MAX,
        mappings[i].filename is Some,
    ensures
        action_of(mappings[i], options) is Ok,
        action_of(mappings[i], options)->Ok_0 is Some,
        plan.0.contains(action_of(mappings[i], options)->Ok_0->0),
{
    let order = choose|order: Seq<usize>| #[trigger]
        is_stable_order(name_keys(mappings), order) && plan == actions_in(mappings, options, order);
    assert(order.contains(i as usize));
    let place = choose|p: int| 0 <= p < order.len() && order[p] == i as usize;
    lemma_action_is_planned(mappings, options, order, place);
}

proof fn lemma_action_is_planned(
    mappings: Seq<FileMapping>,
    options: PathOptions,
    order: Seq<usize>,
    place: int,
)
    requires
        actions_in(mappings, options, order).1 is None,
        0 <= place < order.len(),
    ensures
        match action_of(mappings[order[place] as int], options) {
            Err(_) => false,
            Ok(None) => true,
            Ok(Some(action)) => actions_in(mappings, options, order).0.contains(action),
        },
    decreases order.len(),
{
    let fewer = order.drop_last();
    let (actions, failure) = actions_in(mappings, options, fewer);
    if place < fewer.len() {
        lemma_action_is_planned(mappings, options, fewer, place);
        if let Ok(Some(action)) = action_of(mappings[order[place] as int], options) {
            let k = choose|k: int| 0 <= k < actions.len() && actions[k] == action;
            assert(actions_in(mappings, options, order).0[k] == action);
        }
    } else {
        if let Ok(Some(action)) = action_of(mappings[order[place] as int], options) {
            assert(actions_in(mappings, options, order).0.last() == action);
        }
    }
}

/// A plan creates nothing that no mapping asks for; and what it is refused
/// for is a mapping that cannot be created.
pub proof fn plan_holds_nothing_else(
    plan: (Seq<ActionView>, Option<ErrorView>),
    mappings: Seq<FileMapping>,
    options: PathOptions,
)
    requires
        is_plan_of(plan, mappings, options),
    ensures
        plan.0.len() <= mappings.len(),
        forall|a: int|
            0 <= a < plan.0.len() ==> exists|i: int|
                0 <= i < mappings.len() && action_of(#[trigger] mappings[i], options) == Ok::<
                    Option<ActionView>,
                    ErrorView,
                >(Some(#[trigger] plan.0[a])),
        plan.1 matches Some(e) ==> exists|i: int|
            0 <= i < mappings.len() && action_of(#[trigger] mappings[i], options) == Err::<
                Option<ActionView>,
                ErrorView,
            >(e),
        (exists|i: int|
            0 <= i < mappings.len() <= usize::MAX && action_of(
                #[trigger] mappings[i],
                options,
            ) is Err) ==> plan.1 is Some,
{
    let order = choose|order: Seq<usize>| #[trigger]
        is_stable_order(name_keys(mappings), order) && plan == actions_in(mappings, options, order);
    lemma_actions_have_mappings(mappings, options, order);
    if plan.1 is None && exists|i: int|
        0 <= i < mappings.len() <= usize::MAX && action_of(#[trigger] mappings[i], options) is Err {
        let i = choose|i: int|
            0 <= i < mappings.len() <= usize::MAX && action_of(
                #[trigger] mappings[i],
                options,
            ) is Err;
        plan_covers_every_mapping(plan, mappings, options, i);
    }
}

proof fn lemma_actions_have_mappings(
    mappings: Seq<FileMapping>,
    options: PathOptions,
    order: Seq<usize>,
)
    requires
        forall|p: int| 0 <= p < order.len() ==> 0 <= (#[trigger] order[p]) < mappings.len(),
    ensures
        actions_in(mappings, options, order).0.len() <= order.len(),
        forall|a: int|
            0 <= a < actions_in(mappings, options, order).0.len() ==> exists|i: int|
                0 <= i < mappings.len() && action_of(#[trigger] mappings[i], options) == Ok::<
                    Option<ActionView>,
                    ErrorView,
                >(Some(#[trigger] actions_in(mappings, options, order).0[a])),
        actions_in(mappings, options, order).1 matches Some(e) ==> exists|i: int|
            0 <= i < mappings.len() && action_of(#[trigger] mappings[i], options) == Err::<
                Option<ActionView>,
                ErrorView,
            >(e),
    decreases order.len(),
{
    if order.len() > 0 {
        let fewer = order.drop_last();
        assert forall|p: int| 0 <= p < fewer.len() implies 0 <= (#[trigger] fewer[p])
            < mappings.len() by {
            assert(fewer[p] == order[p]);
        }
        lemma_actions_have_mappings(mappings, options, fewer);
        let (before, failure) = actions_in(mappings, options, fewer);
        let all = actions_in(mappings, options, order).0;
        let last = order[order.len() - 1] as int;
        assert(order.last() as int == last);
        assert forall|a: int| 0 <= a < all.len() implies exists|i: int|
            0 <= i < mappings.len() && action_of(#[trigger] mappings[i], options) == Ok::<
                Option<ActionView>,
                ErrorView,
            >(Some(#[trigger] all[a])) by {
            if a < before.len() {
                assert(all[a] == before[a]);
            } else {
                assert(action_of(mappings[last], options) == Ok::<Option<ActionView>, ErrorView>(
                    Some(all[a]),
                ));
            }
        }
        if failure is None && action_of(mappings[last], options) is Err {
            assert(action_of(mappings[last], options) is Err);
        }
    }
}

/// The tree is created from the top: of two mappings that are created, the one
/// whose name the other's begins with is created first.
pub proof fn tree_is_created_from_the_top(
    plan: (Seq<ActionView>, Option<ErrorView>),
    mappings: Seq<FileMapping>,
    options: PathOptions,
    i: int,
    j: int,
)
    requires
        is_plan_of(plan, mappings, options),
        plan.1 is None,
        0 <= i < mappings.len() <= usize::MAX,
        0 <= j < mappings.len(),
        mappings[i].filename is Some,
        mappings[j].filename is Some,
        encode_utf8(mappings[i].filename->0@).len() < encode_utf8(mappings[j].filename->0@).len(),
        encode_utf8(mappings[i].filename->0@).is_prefix_of(
            encode_utf8(mappings[j].filename->0@),
        ),
    ensures
        exists|a: int, b: int|
            0 <= a < b < plan.0.len() && action_of(mappings[i], options) == Ok::<
                Option<ActionView>,
                ErrorView,
            >(Some(#[trigger] plan.0[a])) && action_of(mappings[j], options) == Ok::<
                Option<ActionView>,
                ErrorView,
            >(Some(#[trigger] plan.0[b])),
{
    let (first, second) = (
        encode_utf8(mappings[i].filename->0@),
        encode_utf8(mappings[j].filename->0@),
    );
    assert(first == second.take(first.len() as int));
    assert forall|k: int| 0 <= k < first.len() implies first[k] == second[k] by {
        assert(second.take(first.len() as int)[k] == second[k]);
    }
    first_difference_decides(first, second, first.len() as int);
    tree_is_created_by_name(plan, mappings, options, i, j);
}

/// The tree is created by name, byte by byte, and what has the same name in
/// the order of the manifest.
pub proof fn tree_is_created_by_name(
    plan: (Seq<ActionView>, Option<ErrorView>),
    mappings: Seq<FileMapping>,
    options: PathOptions,
    i: int,
    j: int,
)
    requires
        is_plan_of(plan, mappings, options),
        plan.1 is None,
        0 <= i < mappings.len() <= usize::MAX,
        0 <= j < mappings.len(),
        mappings[i].filename is Some,
        mappings[j].filename is Some,
        bytes_before(
            encode_utf8(mappings[i].filename->0@),
            encode_utf8(mappings[j].filename->0@),
        ) || encode_utf8(mappings[i].filename->0@) == encode_utf8(mappings[j].filename->0@) && i < j,
    ensures
        exists|a: int, b: int|
            0 <= a < b < plan.0.len() && action_of(mappings[i], options) == Ok::<
                Option<ActionView>,
                ErrorView,
            >(Some(#[trigger] plan.0[a])) && action_of(mappings[j], options) == Ok::<
                Option<ActionView>,
                ErrorView,
            >(Some(#[trigger] plan.0[b])),
{
    let keys = name_keys(mappings);
    let order = choose|order: Seq<usize>| #[trigger]
        is_stable_order(keys, order) && plan == actions_in(mappings, options, order);
    assert(order.contains(i as usize) && order.contains(j as usize));
    let p = choose|p: int| 0 <= p < order.len() && order[p] == i as usize;
    let q = choose|q: int| 0 <= q < order.len() && order[q] == j as usize;
    assert(item_before(keys, i, j));
    if i == j {
        first_difference_decides(keys[i], keys[i], keys[i].len() as int);
    }
    one_item_comes_first(keys, i, j);
    if q < p {
        assert(item_before(keys, order[q] as int, order[p] as int));
    }
    assert(p < q);
    lemma_actions_keep_their_order(mappings, options, order, p, q);
}

/// Where every mapping has a name and none is refused, there is one action for
/// each.
pub proof fn plan_has_one_action_each(
    plan: (Seq<ActionView>, Option<ErrorView>),
    mappings: Seq<FileMapping>,
    options: PathOptions,
)
    requires
        is_plan_of(plan, mappings, options),
        plan.1 is None,
        forall|i: int| 0 <= i < mappings.len() ==> (#[trigger] mappings[i]).filename is Some,
    ensures
        plan.0.len() == mappings.len(),
{
    let order = choose|order: Seq<usize>| #[trigger]
        is_stable_order(name_keys(mappings), order) && plan == actions_in(mappings, options, order);
    lemma_one_action_each(mappings, options, order);
}

proof fn lemma_one_action_each(
    mappings: Seq<FileMapping>,
    options: PathOptions,
    order: Seq<usize>,
)
    requires
        forall|p: int|
            0 <= p < order.len() ==> mappings[(#[trigger] order[p]) as int].filename is Some,
        actions_in(mappings, options, order).1 is None,
    ensures
        actions_in(mappings, options, order).0.len() == order.len(),
    decreases order.len(),
{
    if order.len() > 0 {
        let fewer = order.drop_last();
        assert forall|p: int| 0 <= p < fewer.len() implies mappings[(
        #[trigger] fewer[p]) as int].filename is Some by {
            assert(fewer[p] == order[p]);
        }
        lemma_one_action_each(mappings, options, fewer);
        let last = order[order.len() - 1] as int;
        assert(order.last() as int == last);
        mapping_becomes_what_its_flags_say(mappings[last], options);
    }
}

proof fn lemma_failure_place(
    mappings: Seq<FileMapping>,
    options: PathOptions,
    order: Seq<usize>,
) -> (p: int)
    requires
        actions_in(mappings, options, order).1 is Some,
    ensures
        0 <= p < order.len(),
        action_of(mappings[order[p] as int], options) == Err::<Option<ActionView>, ErrorView>(
            actions_in(mappings, options, order).1->0,
        ),
        actions_in(mappings, options, order.take(p)) == (
            actions_in(mappings, options, order).0,
            None::<ErrorView>,
        ),
    decreases order.len(),
{
    let fewer = order.drop_last();
    if actions_in(mappings, options, fewer).1 is Some {
        let p = lemma_failure_place(mappings, options, fewer);
        assert(fewer.take(p) =~= order.take(p));
        p
    } else {
        assert(order.take(order.len() - 1) =~= fewer);
        order.len() - 1
    }
}

/// A mapping that is refused ends the plan: what comes before it by name is
/// planned, and nothing else is.
pub proof fn refused_mapping_ends_the_plan(
    plan: (Seq<ActionView>, Option<ErrorView>),
    mappings: Seq<FileMapping>,
    options: PathOptions,
) -> (k: int)
    requires
        is_plan_of(plan, mappings, options),
        plan.1 is Some,
        mappings.len() <= usize::MAX,
    ensures
        0 <= k < mappings.len(),
        action_of(mappings[k], options) == Err::<Option<ActionView>, ErrorView>(plan.1->0),
        forall|i: int|
            0 <= i < mappings.len() && (#[trigger] mappings[i]).filename is Some && item_before(
                name_keys(mappings),
                i,
                k,
            ) ==> exists|a: int|
                0 <= a < plan.0.len() && action_of(mappings[i], options) == Ok::<
                    Option<ActionView>,
                    ErrorView,
                >(Some(#[trigger] plan.0[a])),
        forall|a: int|
            0 <= a < plan.0.len() ==> exists|i: int|
                0 <= i < mappings.len() && item_before(name_keys(mappings), i, k) && action_of(
                    #[trigger] mappings[i],
                    options,
                ) == Ok::<Option<ActionView>, ErrorView>(Some(#[trigger] plan.0[a])),
{
    let keys = name_keys(mappings);
    let order = choose|order: Seq<usize>| #[trigger]
        is_stable_order(keys, order) && plan == actions_in(mappings, options, order);
    let p = lemma_failure_place(mappings, options, order);
    let k = order[p] as int;
    let front = order.take(p);
    assert forall|i: int|
        0 <= i < mappings.len() && (#[trigger] mappings[i]).filename is Some && item_before(
            keys,
            i,
            k,
        ) implies exists|a: int|
        0 <= a < plan.0.len() && action_of(mappings[i], options) == Ok::<
            Option<ActionView>,
            ErrorView,
        >(Some(#[trigger] plan.0[a])) by {
        assert(order.contains(i as usize));
        let q = choose|q: int| 0 <= q < order.len() && order[q] == i as usize;
        if i == k {
            first_difference_decides(keys[i], keys[i], keys[i].len() as int);
        }
        one_item_comes_first(keys, i, k);
        if p < q {
            assert(item_before(keys, order[p] as int, order[q] as int));
        }
        assert(q < p);
        assert(front[q] == i as usize);
        lemma_action_is_planned(mappings, options, front, q);
        mapping_becomes_what_its_flags_say(mappings[i], options);
        let action = action_of(mappings[i], options)->Ok_0->0;
        let a = choose|a: int| 0 <= a < plan.0.len() && plan.0[a] == action;
        assert(plan.0[a] == action);
    }
    assert forall|a: int| 0 <= a < plan.0.len() implies exists|i: int|
        0 <= i < mappings.len() && item_before(keys, i, k) && action_of(
            #[trigger] mappings[i],
            options,
        ) == Ok::<Option<ActionView>, ErrorView>(Some(#[trigger] plan.0[a])) by {
        let q = lemma_action_has_a_place(mappings, options, front, a);
        assert(front[q] == order[q]);
        assert(item_before(keys, order[q] as int, order[p] as int));
        assert(action_of(mappings[order[q] as int], options) == Ok::<
            Option<ActionView>,
            ErrorView,
        >(Some(plan.0[a])));
    }
    k
}

proof fn lemma_action_has_a_place(
    mappings: Seq<FileMapping>,
    options: PathOptions,
    order: Seq<usize>,
    a: int,
) -> (q: int)
    requires
        0 <= a < actions_in(mappings, options, order).0.len(),
    ensures
        0 <= q < order.len(),
        action_of(mappings[order[q] as int], options) == Ok::<Option<ActionView>, ErrorView>(
            Some(actions_in(mappings, options, order).0[a]),
        ),
    decreases order.len(),
{
    let fewer = order.drop_last();
    let before = actions_in(mappings, options, fewer).0;
    if a < before.len() {
        lemma_action_has_a_place(mappings, options, fewer, a)
    } else {
        order.len() - 1
    }
}

proof fn lemma_actions_keep_their_order(
    mappings: Seq<FileMapping>,
    options: PathOptions,
    order: Seq<usize>,
    p: int,
    q: int,
)
    requires
        actions_in(mappings, options, order).1 is None,
        0 <= p < q < order.len(),
        mappings[order[p] as int].filename is Some,
        mappings[order[q] as int].filename is Some,
    ensures
        exists|a: int, b: int|
            0 <= a < b < actions_in(mappings, options, order).0.len() && action_of(
                mappings[order[p] as int],
                options,
            ) == Ok::<Option<ActionView>, ErrorView>(
                Some(#[trigger] actions_in(mappings, options, order).0[a]),
            ) && action_of(mappings[order[q] as int], options) == Ok::<
                Option<ActionView>,
                ErrorView,
            >(Some(#[trigger] actions_in(mappings, options, order).0[b])),
    decreases order.len(),
{
    let fewer = order.drop_last();
    let before = actions_in(mappings, options, fewer).0;
    let all = actions_in(mappings, options, order).0;
    if q < fewer.len() {
        lemma_actions_keep_their_order(mappings, options, fewer, p, q);
        let (a, b) = choose|a: int, b: int|
            0 <= a < b < before.len() && action_of(mappings[fewer[p] as int], options) == Ok::<
                Option<ActionView>,
                ErrorView,
            >(Some(#[trigger] before[a])) && action_of(mappings[fewer[q] as int], options) == Ok::<
                Option<ActionView>,
                ErrorView,
            >(Some(#[trigger] before[b]));
        assert(all[a] == before[a] && all[b] == before[b]);
    } else {
        lemma_action_is_planned(mappings, options, fewer, p);
        let action = action_of(mappings[order[p] as int], options)->Ok_0->0;
        let a = choose|a: int| 0 <= a < before.len() && before[a] == action;
        assert(all[a] == action);
        assert(all.last() == all[all.len() - 1]);
        assert(action_of(mappings[order[q] as int], options) == Ok::<Option<ActionView>, ErrorView>(
            Some(all[all.len() - 1]),
        ));
    }
}

/// Plans what to create for a depot, or refuses a manifest in which names
/// would become the same path once folded.
pub fn plan_directory_tree(manifest: &DepotManifest, options: PathOptions) -> (r: Result<
    PreparePlan,
    Error,
>)
    ensures
        match r {
            Ok(plan) => (!options.lowercase || collision_free(
                filenames(manifest.payload.mappings@),
                options,
            )) && is_plan_of(plan@, manifest.payload.mappings@, options),
            Err(e) => options.lowercase && e@ is Other && tells_first_collision(
                filenames(manifest.payload.mappings@),
                options,
                e@->Other_0,
            ),
        },
{
    match check_for_collisions(manifest, options) {
        Ok(_) => Ok(plan_mappings(&manifest.payload.mappings, options)),
        Err(e) => Err(e),
    }
}

fn name_of<'a>(mapping: &'a FileMapping) -> (bytes: &'a [u8])
    ensures
        bytes@ == name_bytes(*mapping),
{
    match &mapping.filename {
        Some(name) => name.as_str().as_bytes(),
        None => {
            proof {
                reveal_strlit("");
                assert(""@ =~= Seq::<char>::empty());
            }
            "".as_bytes()
        },
    }
}

/// Plans what to create for the mappings.
fn plan_mappings(mappings: &Vec<FileMapping>, options: PathOptions) -> (plan: PreparePlan)
    ensures
        is_plan_of(plan@, mappings@, options),
{
    let mut keys: Vec<&[u8]> = Vec::new();
    for i in 0..mappings.len()
        invariant
            keys@.len() == i,
            forall|j: int| 0 <= j < i ==> (#[trigger] keys@[j])@ == name_bytes(mappings@[j]),
    {
        keys.push(name_of(&mappings[i]));
    }
    assert(key_views(keys@) =~= name_keys(mappings@));
    let order: Vec<usize> = stable_order(&keys);
    let mut actions: Vec<PrepareAction> = Vec::new();
    let mut failure: Option<Error> = None;
    assert(action_views(actions@) =~= Seq::<ActionView>::empty());
    let count: usize = order.len();
    let mut at: usize = 0;
    while at < count && failure.is_none()
        invariant
            count == order@.len(),
            at <= count,
            is_stable_order(name_keys(mappings@), order@),
            actions_in(mappings@, options, order@.take(at as int)) == (
                action_views(actions@),
                match failure {
                    Some(e) => Some(e@),
                    None => None,
                },
            ),
        decreases count - at,
    {
        let ghost done = order@.take(at as int);
        let ghost before = actions@;
        proof {
            assert(order@.take(at + 1).drop_last() =~= done);
            assert(order@.take(at + 1).last() == order@[at as int]);
        }
        let mapping: &FileMapping = &mappings[order[at]];
        match plan_action(mapping, options) {
            Err(e) => {
                failure = Some(e);
            },
            Ok(None) => {},
            Ok(Some(action)) => {
                actions.push(action);
                assert(action_views(actions@) =~= action_views(before).push(action@));
            },
        }
        at = at + 1;
    }
    proof {
        if failure is Some {
            lemma_failure_stays(mappings@, options, order@, at as int);
        }
        assert(order@.take(count as int) =~= order@);
    }
    PreparePlan { actions, failure }
}

/// What follows a refused mapping changes nothing.
proof fn lemma_failure_stays(
    mappings: Seq<FileMapping>,
    options: PathOptions,
    order: Seq<usize>,
    at: int,
)
    requires
        0 <= at <= order.len(),
        actions_in(mappings, options, order.take(at)).1 is Some,
    ensures
        actions_in(mappings, options, order) == actions_in(mappings, options, order.take(at)),
    decreases order.len() - at,
{
    if at < order.len() {
        assert(order.take(at + 1).drop_last() =~= order.take(at));
        lemma_failure_stays(mappings, options, order, at + 1);
    } else {
        assert(order.take(at) =~= order);
    }
}

/// What to create for a mapping.
fn plan_action(mapping: &FileMapping, options: PathOptions) -> (r: Result<
    Option<PrepareAction>,
    Error,
>)
    ensures
        match r {
            Ok(Some(action)) => action_of(*mapping, options) == Ok::<
                Option<ActionView>,
                ErrorView,
            >(Some(action@)),
            Ok(None) => action_of(*mapping, options) == Ok::<Option<ActionView>, ErrorView>(None),
            Err(e) => action_of(*mapping, options) == Err::<Option<ActionView>, ErrorView>(e@),
        },
{
    let filename: &String = match &mapping.filename {
        Some(name) => name,
        None => return Ok(None),
    };
    let flags: u32 = match mapping.flags {
        Some(flags) => flags,
        None => 0,
    };
    let size: u64 = match mapping.size {
        Some(size) => size,
        None => 0,
    };
    let path: String = options.relative(filename.as_str());
    if flags & FLAG_DIRECTORY != 0 {
        Ok(Some(PrepareAction::Directory { path }))
    } else if flags & FLAG_SYMLINK != 0 {
        let target: &str = match &mapping.linktarget {
            Some(target) => target.as_str(),
            None => "",
        };
        proof {
            reveal_strlit("");
            assert(""@ =~= Seq::<char>::empty());
        }
        if target.unicode_len() == 0 {
            let mut text: String = "symlink ".to_string();
            text.append(filename.as_str());
            text.append(" has no linktarget");
            return Err(Error::Other(text));
        }
        Ok(Some(PrepareAction::Symlink { path, target: options.relative(target) }))
    } else {
        Ok(Some(PrepareAction::File { path, size, executable: flags & FLAG_EXECUTABLE != 0 }))
    }
}

/// What preparing a directory tree came to.
#[derive(Debug)]
pub struct PrepareResult {
    pub dirs_created: u64,
    pub files_created: u64,
    pub symlinks_created: u64,
    pub total_bytes: u64,
    /// The paths of files that were there already, of the size that the
    /// manifest gives: they were left alone, and their chunks are to be
    /// checked.
    pub verify_candidates: Vec<String>,
}

/// A [`PrepareResult`] over mathematical values.
pub struct PrepareView {
    pub dirs_created: int,
    pub files_created: int,
    pub symlinks_created: int,
    pub total_bytes: int,
    pub verify_candidates: Seq<Seq<char>>,
}

impl View for PrepareResult {
    type V = PrepareView;

    open spec fn view(&self) -> PrepareView {
        PrepareView {
            dirs_created: self.dirs_created as int,
            files_created: self.files_created as int,
            symlinks_created: self.symlinks_created as int,
            total_bytes: self.total_bytes as int,
            verify_candidates: self.verify_candidates@.map_values(|path: String| path@),
        }
    }
}

/// Nothing has been prepared.
pub open spec fn nothing_prepared() -> PrepareView {
    PrepareView {
        dirs_created: 0,
        files_created: 0,
        symlinks_created: 0,
        total_bytes: 0,
        verify_candidates: Seq::empty(),
    }
}

/// The result once `action` has been carried out, where a file of `existing`
/// bytes, if any, stood at its path. A file of the right size is kept and
/// becomes a candidate for checking; any other is created anew.
pub open spec fn recorded(result: PrepareView, action: ActionView, existing: Option<u64>) -> PrepareView {
    match action {
        ActionView::Directory { .. } => PrepareView {
            dirs_created: result.dirs_created + 1,
            ..result
        },
        ActionView::Symlink { .. } => PrepareView {
            symlinks_created: result.symlinks_created + 1,
            ..result
        },
        ActionView::File { path, size, .. } => if existing == Some(size) {
            PrepareView {
                total_bytes: result.total_bytes + size,
                verify_candidates: result.verify_candidates.push(path),
                ..result
            }
        } else {
            PrepareView {
                total_bytes: result.total_bytes + size,
                files_created: result.files_created + 1,
                ..result
            }
        },
    }
}

/// The result can be counted in 64 bits.
pub open spec fn countable(result: PrepareView) -> bool {
    &&& result.dirs_created <= u64::MAX
    &&& result.files_created <= u64::MAX
    &&& result.symlinks_created <= u64::MAX
    &&& result.total_bytes <= u64::MAX
}

/// Whether a file that stands at a path is kept: it is where it has the size
/// that the manifest gives.
pub fn file_is_kept(existing: Option<u64>, size: u64) -> (r: bool)
    ensures
        r == (existing == Some(size)),
{
    match existing {
        Some(length) => length == size,
        None => false,
    }
}

impl PrepareResult {
    /// Nothing has been prepared.
    pub fn new() -> (result: PrepareResult)
        ensures
            result@ == nothing_prepared(),
    {
        let result: PrepareResult = PrepareResult {
            dirs_created: 0,
            files_created: 0,
            symlinks_created: 0,
            total_bytes: 0,
            verify_candidates: Vec::new(),
        };
        assert(result@.verify_candidates =~= Seq::<Seq<char>>::empty());
        result
    }

    /// Takes down that `action` has been carried out, where a file of
    /// `existing` bytes, if any, stood at its path.
    pub fn record(&mut self, action: &PrepareAction, existing: Option<u64>)
        requires
            countable(recorded(old(self)@, action@, existing)),
        ensures
            final(self)@ == recorded(old(self)@, action@, existing),
    {
        let ghost before = self.verify_candidates@;
        match action {
            PrepareAction::Directory { .. } => {
                self.dirs_created = self.dirs_created + 1;
            },
            PrepareAction::Symlink { .. } => {
                self.symlinks_created = self.symlinks_created + 1;
            },
            PrepareAction::File { path, size, .. } => {
                if file_is_kept(existing, *size) {
                    self.verify_candidates.push(path.clone());
                } else {
                    self.files_created = self.files_created + 1;
                }
                self.total_bytes = self.total_bytes + *size;
            },
        }
        assert(self@.verify_candidates =~= recorded(old(self)@, action@, existing).verify_candidates);
    }
}

/// The result of carrying out `actions`, where `existing` gives for each the
/// size of the file that stood at its path.
pub open spec fn prepared(actions: Seq<ActionView>, existing: Seq<Option<u64>>) -> PrepareView
    decreases actions.len(),
{
    if actions.len() == 0 {
        nothing_prepared()
    } else {
        recorded(
            prepared(actions.drop_last(), existing),
            actions.last(),
            existing[actions.len() - 1],
        )
    }
}

/// The sizes of the files, added up.
pub open spec fn file_bytes(actions: Seq<ActionView>) -> int
    decreases actions.len(),
{
    if actions.len() == 0 {
        0
    } else {
        file_bytes(actions.drop_last()) + match actions.last() {
            ActionView::File { size, .. } => size as int,
            _ => 0,
        }
    }
}

/// How many of the actions create a directory.
pub open spec fn directory_count(actions: Seq<ActionView>) -> nat {
    actions.filter(|action: ActionView| action is Directory).len()
}

/// How many of the actions create a symlink.
pub open spec fn symlink_count(actions: Seq<ActionView>) -> nat {
    actions.filter(|action: ActionView| action is Symlink).len()
}

/// The paths of the files, in order.
pub open spec fn file_paths(actions: Seq<ActionView>) -> Seq<Seq<char>>
    decreases actions.len(),
{
    if actions.len() == 0 {
        Seq::empty()
    } else {
        match actions.last() {
            ActionView::File { path, .. } => file_paths(actions.drop_last()).push(path),
            _ => file_paths(actions.drop_last()),
        }
    }
}

/// Every action is counted once: as a directory, a symlink, a file that was
/// created or a file that was kept, each as what it is. The bytes are those of all the files,
/// created or kept.
pub proof fn every_action_is_counted(actions: Seq<ActionView>, existing: Seq<Option<u64>>)
    ensures
        prepared(actions, existing).dirs_created + prepared(actions, existing).symlinks_created
            + prepared(actions, existing).files_created + prepared(
            actions,
            existing,
        ).verify_candidates.len() == actions.len(),
        prepared(actions, existing).dirs_created == directory_count(actions),
        prepared(actions, existing).symlinks_created == symlink_count(actions),
        prepared(actions, existing).files_created + prepared(
            actions,
            existing,
        ).verify_candidates.len() == file_paths(actions).len(),
        prepared(actions, existing).total_bytes == file_bytes(actions),
    decreases actions.len(),
{
    reveal(Seq::filter);
    if actions.len() > 0 {
        every_action_is_counted(actions.drop_last(), existing);
    }
}

/// `existing` gives each file of `actions` the size that it is to have.
pub open spec fn all_in_place(actions: Seq<ActionView>, existing: Seq<Option<u64>>) -> bool {
    forall|i: int|
        0 <= i < actions.len() && #[trigger] actions[i] is File ==> existing[i] == Some(
            actions[i]->File_size,
        )
}

/// Preparing a tree again, once its files are in place, creates no file and
/// offers each of them for checking.
pub proof fn preparing_again_keeps_the_files(actions: Seq<ActionView>, existing: Seq<Option<u64>>)
    requires
        all_in_place(actions, existing),
    ensures
        prepared(actions, existing).files_created == 0,
        prepared(actions, existing).verify_candidates == file_paths(actions),
    decreases actions.len(),
{
    if actions.len() > 0 {
        let fewer = actions.drop_last();
        assert forall|i: int| 0 <= i < fewer.len() && #[trigger] fewer[i] is File implies existing[i]
            == Some(fewer[i]->File_size) by {
            assert(actions[i] is File);
        }
        preparing_again_keeps_the_files(fewer, existing);
        assert(actions[actions.len() - 1] == actions.last());
    }
}

/// A file is offered for checking exactly where it was kept: a file of the
/// right size stood at its path.
pub proof fn kept_files_are_candidates(
    actions: Seq<ActionView>,
    existing: Seq<Option<u64>>,
    path: Seq<char>,
)
    ensures
        prepared(actions, existing).verify_candidates.contains(path) <==> exists|i: int|
            0 <= i < actions.len() && (#[trigger] actions[i]) is File && actions[i]->File_path
                == path && existing[i] == Some(actions[i]->File_size),
    decreases actions.len(),
{
    let all = prepared(actions, existing).verify_candidates;
    if actions.len() > 0 {
        let fewer = actions.drop_last();
        let before = prepared(fewer, existing).verify_candidates;
        let last = actions.len() - 1;
        kept_files_are_candidates(fewer, existing, path);
        assert(actions[last] == actions.last());
        if before.contains(path) {
            let i = choose|i: int|
                0 <= i < fewer.len() && (#[trigger] fewer[i]) is File && fewer[i]->File_path == path
                    && existing[i] == Some(fewer[i]->File_size);
            assert(actions[i] == fewer[i]);
            let k = choose|k: int| 0 <= k < before.len() && before[k] == path;
            assert(all[k] == path);
        }
        if all.contains(path) && !before.contains(path) {
            let k = choose|k: int| 0 <= k < all.len() && all[k] == path;
            if k < before.len() {
                assert(before[k] == path);
            }
            assert(actions[last] is File);
        }
        if exists|i: int|
            0 <= i < actions.len() && (#[trigger] actions[i]) is File && actions[i]->File_path
                == path && existing[i] == Some(actions[i]->File_size) {
            let i = choose|i: int|
                0 <= i < actions.len() && (#[trigger] actions[i]) is File && actions[i]->File_path
                    == path && existing[i] == Some(actions[i]->File_size);
            if i < last {
                assert(fewer[i] == actions[i]);
            } else {
                assert(all.last() == path);
            }
        }
    }
}

} // verus!
