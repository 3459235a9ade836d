//! Laws of what is created for a depot and which chunks are had.

use vstd::prelude::*;
use vstd::utf8::{encode_utf8, encode_utf8_decode_utf8};

use crate::cdn::{penalty_of, CdnPool, CdnServer};
use crate::crypto::filename_decrypted;
use crate::download::{
    after_check, after_download, chunk_address_is_made_of_its_parts, chunk_source_at,
    chunk_status_failure, chunk_url, chunks_to_have, every_chunk_has_its_job, first_step,
    is_retryable, is_source, is_work_of, jobs_to_check, kept_names_are_checked_first,
    all_chunks_to_have, passing_failures_are_these, plan_jobs, verify_concurrency, ChunkJob,
    ChunkSource, ChunkStep, DownloadProgress, PositionedRead, ReadEvent, ReadStep,
};
use crate::error::{Error, ErrorView};
use crate::manifest::DepotManifest;
use crate::order::{bytes_before, first_difference_decides, item_before};
use crate::outside::unicode_lowercased;
use crate::paths::{
    check_for_collisions, collide, collision_free, components, decrypt_manifest_filenames,
    filenames, joined_path, name_refused, names_are_decrypted_one_by_one, names_decrypted_up_to,
    paths_are_normal, relative_path, slashes_part_components, PathOptions,
};
use crate::prepare::{
    action_of, file_is_kept, mapping_becomes_what_its_flags_say, name_keys,
    plan_covers_every_mapping, plan_directory_tree, plan_has_one_action_each,
    plan_holds_nothing_else, refused_mapping_ends_the_plan, tree_is_created_by_name,
    tree_is_created_from_the_top, ActionView, PrepareAction, PreparePlan, PrepareResult,
};
use crate::proto::{ContentManifestMetadata, FileMapping};
use crate::text::decimal;

verus! {

// ---------------------------------------------------------------------------
// Paths
// ---------------------------------------------------------------------------

/// A path has the characters of its name, with a slash for each backslash;
/// where paths are written in lowercase, each letter of an ASCII name is.
pub proof fn path_is_made_of_its_name(options: &PathOptions, name: &str, path: String, i: int)
    requires
        call_ensures(PathOptions::relative, (options, name), path),
    ensures
        !path@.contains('\\'),
        !options.lowercase ==> path@.len() == name@.len() && (0 <= i < name@.len() ==> path@[i]
            == if name@[i] == '\\' {
            '/'
        } else {
            name@[i]
        }),
        options.lowercase && (forall|k: int|
            0 <= k < name@.len() ==> (#[trigger] name@[k] as int) < 128) ==> path@.len()
            == name@.len() && (0 <= i < name@.len() ==> path@[i] as int == if name@[i] == '\\' {
            '/' as int
        } else if 'A' <= name@[i] && name@[i] <= 'Z' {
            name@[i] as int + 32
        } else {
            name@[i] as int
        }),
{
    let kept = PathOptions { lowercase: false };
    let folded = PathOptions { lowercase: true };
    paths_are_normal(kept, folded, name@);
}

/// A folded path is the kept path in lowercase.
pub proof fn folded_path_is_the_kept_one_in_lowercase(
    keeping: &PathOptions,
    folding: &PathOptions,
    name: &str,
    kept: String,
    folded: String,
)
    requires
        !keeping.lowercase,
        folding.lowercase,
        call_ensures(PathOptions::relative, (keeping, name), kept),
        call_ensures(PathOptions::relative, (folding, name), folded),
    ensures
        (forall|k: int| 0 <= k < name@.len() ==> (#[trigger] name@[k] as int) < 128) || folded@
            == unicode_lowercased(kept@),
{
    paths_are_normal(*keeping, *folding, name@);
    if crate::text::is_ascii_text(kept@) {
        assert forall|k: int| 0 <= k < name@.len() implies (#[trigger] name@[k] as int) < 128 by {
            assert((kept@[k] as int) < 128);
        }
    }
}

/// Making a path of a path changes nothing where the case is kept, nor where
/// the name is ASCII; and a folded path is the same whether it is made of the
/// name or of the kept path.
pub proof fn path_of_a_path_is_the_path(
    options: &PathOptions,
    folding: &PathOptions,
    name: &str,
    path: &str,
    made: String,
    again: String,
    folded: String,
    folded_again: String,
)
    requires
        call_ensures(PathOptions::relative, (options, name), made),
        path@ == made@,
        call_ensures(PathOptions::relative, (options, path), again),
        folding.lowercase,
        call_ensures(PathOptions::relative, (folding, name), folded),
        call_ensures(PathOptions::relative, (folding, path), folded_again),
    ensures
        !options.lowercase ==> again@ == made@ && folded_again@ == folded@,
        (forall|k: int| 0 <= k < name@.len() ==> (#[trigger] name@[k] as int) < 128) ==> again@
            == made@ && folded_again@ == folded@,
{
    let kept = PathOptions { lowercase: false };
    paths_are_normal(kept, *folding, name@);
}

/// Folding refuses a manifest exactly where two of its names differ and become
/// the same path; keeping the case refuses none.
pub proof fn only_collisions_are_refused(
    manifest: &DepotManifest,
    options: PathOptions,
    r: Result<(), Error>,
    i: int,
    j: int,
)
    requires
        call_ensures(check_for_collisions, (manifest, options), r),
    ensures
        !options.lowercase ==> r is Ok,
        ({
            let a = manifest.payload.mappings@[i].filename;
            let b = manifest.payload.mappings@[j].filename;
            0 <= i < j < manifest.payload.mappings@.len() && options.lowercase && a is Some && b
                is Some && a->0@ != b->0@ && relative_path(options, a->0@) == relative_path(
                options,
                b->0@,
            ) ==> r is Err
        }),
        r is Err ==> exists|x: int, y: int|
            0 <= x < y < manifest.payload.mappings@.len() && (
            #[trigger] manifest.payload.mappings@[x]).filename is Some && (
            #[trigger] manifest.payload.mappings@[y]).filename is Some
                && manifest.payload.mappings@[x].filename->0@
                != manifest.payload.mappings@[y].filename->0@ && relative_path(
                options,
                manifest.payload.mappings@[x].filename->0@,
            ) == relative_path(options, manifest.payload.mappings@[y].filename->0@),
{
    let names = filenames(manifest.payload.mappings@);
    if r is Ok && options.lowercase && 0 <= i < j < names.len() {
        assert(!collide(names, options, i, j));
    }
    if r is Err {
        let (x, y) = choose|x: int, y: int| #[trigger]
            collide(names, options, x, y) && collision_free(names.take(y), options)
                && r->Err_0@->Other_0 == crate::paths::collision_text(
                names[x]->0,
                names[y]->0,
                relative_path(options, names[y]->0),
            );
        assert(collide(names, options, x, y));
        assert(manifest.payload.mappings@[x].filename is Some);
        assert(manifest.payload.mappings@[y].filename is Some);
    }
}

/// Decrypting the names of a manifest decrypts the name of each mapping and
/// changes nothing else of it; names that are not encrypted stay.
pub proof fn file_names_are_decrypted_in_place(
    manifest: &mut DepotManifest,
    key: &[u8],
    r: Result<(), Error>,
    i: int,
)
    requires
        call_ensures(decrypt_manifest_filenames, (manifest, key), r),
    ensures
        old(manifest).metadata.filenames_encrypted != Some(true) ==> r is Ok && *final(manifest)
            == *old(manifest),
        old(manifest).metadata.filenames_encrypted == Some(true) && r is Ok ==> {
            &&& final(manifest).payload.mappings@.len() == old(manifest).payload.mappings@.len()
            &&& final(manifest).metadata == ContentManifestMetadata {
                filenames_encrypted: Some(false),
                ..old(manifest).metadata
            }
            &&& final(manifest).signature == old(manifest).signature
        },
        old(manifest).metadata.filenames_encrypted == Some(true) && r is Ok && 0 <= i
            < old(manifest).payload.mappings@.len() ==> {
            let before = old(manifest).payload.mappings@[i];
            let after = final(manifest).payload.mappings@[i];
            &&& after.sha_filename == before.sha_filename
            &&& after.sha_content == before.sha_content
            &&& after.size == before.size
            &&& after.flags == before.flags
            &&& after.chunks == before.chunks
            &&& after.linktarget == before.linktarget
            &&& before.filename is None ==> after.filename is None
            &&& before.filename is Some ==> after.filename is Some && filename_decrypted(
                key@,
                before.filename->0@,
            ) == Ok::<Seq<char>, ErrorView>(after.filename->0@)
        },
{
    if 0 <= i < old(manifest).payload.mappings@.len() {
        names_are_decrypted_one_by_one(
            *old(manifest),
            key@,
            *final(manifest),
            match r {
                Ok(_) => Ok(()),
                Err(e) => Err(e@),
            },
            i,
        );
    }
}

/// Decrypting fails exactly where some name cannot be decrypted; the manifest
/// then says still that its names are encrypted.
pub proof fn one_bad_name_stops_the_decryption(
    manifest: &mut DepotManifest,
    key: &[u8],
    r: Result<(), Error>,
)
    requires
        call_ensures(decrypt_manifest_filenames, (manifest, key), r),
        old(manifest).metadata.filenames_encrypted == Some(true),
    ensures
        r is Err <==> exists|i: int|
            0 <= i < old(manifest).payload.mappings@.len() && (
            #[trigger] old(manifest).payload.mappings@[i]).filename is Some && filename_decrypted(
                key@,
                old(manifest).payload.mappings@[i].filename->0@,
            ) is Err,
        r is Err ==> final(manifest).metadata == old(manifest).metadata,
{
    let mappings = old(manifest).payload.mappings@;
    if mappings.len() > 0 {
        names_are_decrypted_one_by_one(
            *old(manifest),
            key@,
            *final(manifest),
            match r {
                Ok(_) => Ok(()),
                Err(e) => Err(e@),
            },
            0,
        );
    }
    if let Err(e) = r {
        let i = choose|i: int|
            0 <= i < mappings.len() && name_refused(#[trigger] mappings[i], key@, e@)
                && names_decrypted_up_to(mappings, key@, final(manifest).payload.mappings@, i);
        assert(mappings[i].filename is Some);
    }
}

// ---------------------------------------------------------------------------
// The tree
// ---------------------------------------------------------------------------

/// `action` is what a mapping is to become: by bit 0x40 of its flags a
/// directory, else by bit 0x200 a symlink, else a file, which bit 0x20 makes
/// executable.
pub open spec fn is_asked_for(
    action: PrepareAction,
    mapping: FileMapping,
    options: PathOptions,
) -> bool {
    let flags: u32 = match mapping.flags {
        Some(flags) => flags,
        None => 0,
    };
    &&& mapping.filename is Some
    &&& match action {
        PrepareAction::Directory { path } => flags & 0x40 != 0 && path@ == relative_path(
            options,
            mapping.filename->0@,
        ),
        PrepareAction::Symlink { path, target } => flags & 0x40 == 0 && flags & 0x200 != 0 && path@
            == relative_path(options, mapping.filename->0@) && mapping.linktarget is Some
            && target@ == relative_path(options, mapping.linktarget->0@),
        PrepareAction::File { path, size, executable } => flags & 0x40 == 0 && flags & 0x200 == 0
            && path@ == relative_path(options, mapping.filename->0@) && size == match mapping.size {
            Some(size) => size,
            None => 0,
        } && executable == (flags & 0x20 != 0),
    }
}

proof fn lemma_asked_for(action: PrepareAction, mapping: FileMapping, options: PathOptions)
    requires
        action_of(mapping, options) == Ok::<Option<ActionView>, ErrorView>(Some(action@)),
    ensures
        is_asked_for(action, mapping, options),
{
    mapping_becomes_what_its_flags_say(mapping, options);
}

/// A plan holds what each named mapping of the manifest is to become, and
/// nothing else; it fails only over a symlink that leads nowhere.
pub proof fn plan_is_what_the_manifest_asks_for(
    manifest: &DepotManifest,
    options: PathOptions,
    plan: PreparePlan,
    i: int,
    a: int,
)
    requires
        call_ensures(plan_directory_tree, (manifest, options), Ok(plan)),
        manifest.payload.mappings@.len() <= usize::MAX,
    ensures
        plan.actions@.len() <= manifest.payload.mappings@.len(),
        plan.failure is None && 0 <= i < manifest.payload.mappings@.len()
            && manifest.payload.mappings@[i].filename is Some ==> exists|k: int|
            0 <= k < plan.actions@.len() && is_asked_for(
                #[trigger] plan.actions@[k],
                manifest.payload.mappings@[i],
                options,
            ),
        0 <= a < plan.actions@.len() ==> exists|k: int|
            0 <= k < manifest.payload.mappings@.len() && is_asked_for(
                plan.actions@[a],
                #[trigger] manifest.payload.mappings@[k],
                options,
            ),
        plan.failure is Some ==> exists|k: int|
            0 <= k < manifest.payload.mappings@.len() && {
                let mapping = #[trigger] manifest.payload.mappings@[k];
                let flags: u32 = match mapping.flags {
                    Some(flags) => flags,
                    None => 0,
                };
                mapping.filename is Some && flags & 0x40 == 0 && flags & 0x200 != 0 && (
                mapping.linktarget is None || mapping.linktarget->0@.len() == 0)
            },
{
    let mappings = manifest.payload.mappings@;
    plan_holds_nothing_else(plan@, mappings, options);
    assert(plan@.0.len() == plan.actions@.len());
    if plan.failure is None && 0 <= i < mappings.len() && mappings[i].filename is Some {
        plan_covers_every_mapping(plan@, mappings, options, i);
        let action = action_of(mappings[i], options)->Ok_0->0;
        let k = choose|k: int| 0 <= k < plan@.0.len() && plan@.0[k] == action;
        assert(plan@.0[k] == plan.actions@[k]@);
        lemma_asked_for(plan.actions@[k], mappings[i], options);
    }
    if 0 <= a < plan.actions@.len() {
        assert(plan@.0[a] == plan.actions@[a]@);
        let k = choose|k: int|
            0 <= k < mappings.len() && action_of(#[trigger] mappings[k], options) == Ok::<
                Option<ActionView>,
                ErrorView,
            >(Some(plan@.0[a]));
        lemma_asked_for(plan.actions@[a], mappings[k], options);
    }
    if plan.failure is Some {
        let e = plan.failure->0@;
        let k = choose|k: int|
            0 <= k < mappings.len() && action_of(#[trigger] mappings[k], options) == Err::<
                Option<ActionView>,
                ErrorView,
            >(e);
        mapping_becomes_what_its_flags_say(mappings[k], options);
        assert(mappings[k].filename is Some);
    }
}

/// Keeping the case, every manifest gets a plan.
pub proof fn kept_names_are_always_planned(
    manifest: &DepotManifest,
    options: PathOptions,
    r: Result<PreparePlan, Error>,
)
    requires
        call_ensures(plan_directory_tree, (manifest, options), r),
        !options.lowercase,
    ensures
        r is Ok,
{
}

/// Folding, a plan fails exactly where names collide.
pub proof fn collisions_stop_the_plan(
    manifest: &DepotManifest,
    options: PathOptions,
    checked: Result<(), Error>,
    r: Result<PreparePlan, Error>,
)
    requires
        call_ensures(check_for_collisions, (manifest, options), checked),
        call_ensures(plan_directory_tree, (manifest, options), r),
    ensures
        r is Err <==> checked is Err,
{
    let names = filenames(manifest.payload.mappings@);
    if checked is Err && r is Ok {
        let (x, y) = choose|x: int, y: int| #[trigger]
            collide(names, options, x, y) && collision_free(names.take(y), options)
                && checked->Err_0@->Other_0 == crate::paths::collision_text(
                names[x]->0,
                names[y]->0,
                relative_path(options, names[y]->0),
            );
        assert(collide(names, options, x, y));
    }
    if checked is Ok && r is Err {
        let e = r->Err_0@->Other_0;
        let (x, y) = choose|x: int, y: int| #[trigger]
            collide(names, options, x, y) && collision_free(names.take(y), options) && e
                == crate::paths::collision_text(
                names[x]->0,
                names[y]->0,
                relative_path(options, names[y]->0),
            );
        assert(collide(names, options, x, y));
    }
}

/// In a plan, what the name of another begins with is created before it.
pub proof fn plan_goes_from_the_top(
    manifest: &DepotManifest,
    options: PathOptions,
    plan: PreparePlan,
    i: int,
    j: int,
)
    requires
        call_ensures(plan_directory_tree, (manifest, options), Ok(plan)),
        plan.failure is None,
        0 <= i < manifest.payload.mappings@.len() <= usize::MAX,
        0 <= j < manifest.payload.mappings@.len(),
        manifest.payload.mappings@[i].filename is Some,
        manifest.payload.mappings@[j].filename is Some,
        encode_utf8(manifest.payload.mappings@[i].filename->0@).len() < encode_utf8(
            manifest.payload.mappings@[j].filename->0@,
        ).len(),
        encode_utf8(manifest.payload.mappings@[i].filename->0@).is_prefix_of(
            encode_utf8(manifest.payload.mappings@[j].filename->0@),
        ),
    ensures
        exists|a: int, b: int|
            0 <= a < b < plan.actions@.len() && is_asked_for(
                #[trigger] plan.actions@[a],
                manifest.payload.mappings@[i],
                options,
            ) && is_asked_for(
                #[trigger] plan.actions@[b],
                manifest.payload.mappings@[j],
                options,
            ),
{
    let mappings = manifest.payload.mappings@;
    tree_is_created_from_the_top(plan@, mappings, options, i, j);
    let (a, b) = choose|a: int, b: int|
        0 <= a < b < plan@.0.len() && action_of(mappings[i], options) == Ok::<
            Option<ActionView>,
            ErrorView,
        >(Some(#[trigger] plan@.0[a])) && action_of(mappings[j], options) == Ok::<
            Option<ActionView>,
            ErrorView,
        >(Some(#[trigger] plan@.0[b]));
    assert(plan@.0[a] == plan.actions@[a]@ && plan@.0[b] == plan.actions@[b]@);
    lemma_asked_for(plan.actions@[a], mappings[i], options);
    lemma_asked_for(plan.actions@[b], mappings[j], options);
}

/// A plan goes by name: what comes first is decided by the first byte in which
/// two names differ, and what has the same name keeps its order.
pub proof fn plan_goes_by_name(
    manifest: &DepotManifest,
    options: PathOptions,
    plan: PreparePlan,
    i: int,
    j: int,
    k: int,
)
    requires
        call_ensures(plan_directory_tree, (manifest, options), Ok(plan)),
        plan.failure is None,
        0 <= i < manifest.payload.mappings@.len() <= usize::MAX,
        0 <= j < manifest.payload.mappings@.len(),
        manifest.payload.mappings@[i].filename is Some,
        manifest.payload.mappings@[j].filename is Some,
        ({
            let a = encode_utf8(manifest.payload.mappings@[i].filename->0@);
            let b = encode_utf8(manifest.payload.mappings@[j].filename->0@);
            &&& 0 <= k <= a.len()
            &&& k <= b.len()
            &&& forall|n: int| 0 <= n < k ==> a[n] == b[n]
            &&& k < a.len() && k < b.len() && a[k] < b[k] || a == b && i < j
        }),
    ensures
        exists|a: int, b: int|
            0 <= a < b < plan.actions@.len() && is_asked_for(
                #[trigger] plan.actions@[a],
                manifest.payload.mappings@[i],
                options,
            ) && is_asked_for(
                #[trigger] plan.actions@[b],
                manifest.payload.mappings@[j],
                options,
            ),
{
    let mappings = manifest.payload.mappings@;
    let first = encode_utf8(mappings[i].filename->0@);
    let second = encode_utf8(mappings[j].filename->0@);
    first_difference_decides(first, second, k);
    tree_is_created_by_name(plan@, mappings, options, i, j);
    let (a, b) = choose|a: int, b: int|
        0 <= a < b < plan@.0.len() && action_of(mappings[i], options) == Ok::<
            Option<ActionView>,
            ErrorView,
        >(Some(#[trigger] plan@.0[a])) && action_of(mappings[j], options) == Ok::<
            Option<ActionView>,
            ErrorView,
        >(Some(#[trigger] plan@.0[b]));
    assert(plan@.0[a] == plan.actions@[a]@ && plan@.0[b] == plan.actions@[b]@);
    lemma_asked_for(plan.actions@[a], mappings[i], options);
    lemma_asked_for(plan.actions@[b], mappings[j], options);
}

/// Where every mapping has a name and none is refused, the plan has one action
/// for each.
pub proof fn plan_leaves_out_none(
    manifest: &DepotManifest,
    options: PathOptions,
    plan: PreparePlan,
)
    requires
        call_ensures(plan_directory_tree, (manifest, options), Ok(plan)),
        plan.failure is None,
        forall|i: int|
            0 <= i < manifest.payload.mappings@.len() ==> (
            #[trigger] manifest.payload.mappings@[i]).filename is Some,
    ensures
        plan.actions@.len() == manifest.payload.mappings@.len(),
{
    plan_has_one_action_each(plan@, manifest.payload.mappings@, options);
    assert(plan@.0.len() == plan.actions@.len());
}

/// A symlink that leads nowhere ends the plan: what comes before it by name is
/// planned.
pub proof fn refused_link_ends_the_plan(
    manifest: &DepotManifest,
    options: PathOptions,
    plan: PreparePlan,
) -> (refused: int)
    requires
        call_ensures(plan_directory_tree, (manifest, options), Ok(plan)),
        plan.failure is Some,
        manifest.payload.mappings@.len() <= usize::MAX,
    ensures
        0 <= refused < manifest.payload.mappings@.len(),
        manifest.payload.mappings@[refused].linktarget is None
            || manifest.payload.mappings@[refused].linktarget->0@.len() == 0,
        forall|i: int|
            #![trigger manifest.payload.mappings@[i]]
            0 <= i < manifest.payload.mappings@.len()
                && manifest.payload.mappings@[i].filename is Some && bytes_before(
                encode_utf8(manifest.payload.mappings@[i].filename->0@),
                encode_utf8(manifest.payload.mappings@[refused].filename->0@),
            ) ==> exists|a: int|
                0 <= a < plan.actions@.len() && is_asked_for(
                    #[trigger] plan.actions@[a],
                    manifest.payload.mappings@[i],
                    options,
                ),
        forall|a: int|
            0 <= a < plan.actions@.len() ==> exists|i: int|
                0 <= i < manifest.payload.mappings@.len() && is_asked_for(
                    #[trigger] plan.actions@[a],
                    #[trigger] manifest.payload.mappings@[i],
                    options,
                ) && (bytes_before(
                    encode_utf8(manifest.payload.mappings@[i].filename->0@),
                    encode_utf8(manifest.payload.mappings@[refused].filename->0@),
                ) || manifest.payload.mappings@[i].filename->0@
                    == manifest.payload.mappings@[refused].filename->0@ && i < refused),
{
    let mappings = manifest.payload.mappings@;
    let k = refused_mapping_ends_the_plan(plan@, mappings, options);
    mapping_becomes_what_its_flags_say(mappings[k], options);
    let keys = name_keys(mappings);
    assert forall|i: int|
        #![trigger manifest.payload.mappings@[i]]
        0 <= i < mappings.len() && mappings[i].filename is Some && bytes_before(
            encode_utf8(mappings[i].filename->0@),
            encode_utf8(mappings[k].filename->0@),
        ) implies exists|a: int|
        0 <= a < plan.actions@.len() && is_asked_for(
            #[trigger] plan.actions@[a],
            mappings[i],
            options,
        ) by {
        assert(keys[i] == encode_utf8(mappings[i].filename->0@));
        assert(keys[k] == encode_utf8(mappings[k].filename->0@));
        assert(item_before(keys, i, k));
        let a = choose|a: int|
            0 <= a < plan@.0.len() && action_of(mappings[i], options) == Ok::<
                Option<ActionView>,
                ErrorView,
            >(Some(#[trigger] plan@.0[a]));
        assert(plan@.0[a] == plan.actions@[a]@);
        lemma_asked_for(plan.actions@[a], mappings[i], options);
    }
    assert forall|a: int| 0 <= a < plan.actions@.len() implies exists|i: int|
        0 <= i < mappings.len() && is_asked_for(
            #[trigger] plan.actions@[a],
            #[trigger] manifest.payload.mappings@[i],
            options,
        ) && (bytes_before(
            encode_utf8(mappings[i].filename->0@),
            encode_utf8(mappings[k].filename->0@),
        ) || mappings[i].filename->0@ == mappings[k].filename->0@ && i < k) by {
        assert(plan@.0[a] == plan.actions@[a]@);
        let i = choose|i: int|
            0 <= i < mappings.len() && item_before(keys, i, k) && action_of(
                #[trigger] mappings[i],
                options,
            ) == Ok::<Option<ActionView>, ErrorView>(Some(plan@.0[a]));
        lemma_asked_for(plan.actions@[a], mappings[i], options);
        let name = mappings[i].filename->0@;
        let other = mappings[k].filename->0@;
        assert(keys[i] == encode_utf8(name));
        assert(keys[k] == encode_utf8(other));
        if encode_utf8(name) == encode_utf8(other) {
            encode_utf8_decode_utf8(name);
            encode_utf8_decode_utf8(other);
        }
        assert(is_asked_for(plan.actions@[a], manifest.payload.mappings@[i], options));
    }
    k
}

/// A file is kept exactly where one of its size is there.
pub proof fn files_of_the_right_size_are_kept(existing: Option<u64>, size: u64, kept: bool)
    requires
        call_ensures(file_is_kept, (existing, size), kept),
    ensures
        kept <==> existing is Some && existing->0 == size,
{
}

/// Each thing that is created counts once, as what it is; a file that is kept
/// is offered for checking instead, and the bytes of either are added up.
pub proof fn what_is_done_is_taken_down(
    result: &mut PrepareResult,
    action: &PrepareAction,
    existing: Option<u64>,
    nothing: (),
    i: int,
)
    requires
        call_ensures(PrepareResult::record, (result, action, existing), nothing),
    ensures
        ({
            let before = *old(result);
            let after = *final(result);
            match *action {
                PrepareAction::Directory { .. } => after.dirs_created == before.dirs_created + 1
                    && after.symlinks_created == before.symlinks_created && after.files_created
                    == before.files_created && after.total_bytes == before.total_bytes
                    && after.verify_candidates@.len() == before.verify_candidates@.len(),
                PrepareAction::Symlink { .. } => after.dirs_created == before.dirs_created
                    && after.symlinks_created == before.symlinks_created + 1 && after.files_created
                    == before.files_created && after.total_bytes == before.total_bytes
                    && after.verify_candidates@.len() == before.verify_candidates@.len(),
                PrepareAction::File { path, size, .. } => after.dirs_created == before.dirs_created
                    && after.symlinks_created == before.symlinks_created && after.total_bytes
                    == before.total_bytes + size && if existing is Some && existing->0 == size {
                    after.files_created == before.files_created && after.verify_candidates@.len()
                        == before.verify_candidates@.len() + 1 && after.verify_candidates@.last()@
                        == path@ && (0 <= i < before.verify_candidates@.len()
                        ==> after.verify_candidates@[i]@ == before.verify_candidates@[i]@)
                } else {
                    after.files_created == before.files_created + 1
                        && after.verify_candidates@.len() == before.verify_candidates@.len()
                },
            }
        }),
{
    let after = *final(result);
    let before = *old(result);
    assert(after@.verify_candidates.len() == after.verify_candidates@.len());
    assert(before@.verify_candidates.len() == before.verify_candidates@.len());
    if after.verify_candidates@.len() > 0 {
        assert(after@.verify_candidates.last() == after.verify_candidates@.last()@);
    }
    if 0 <= i < before.verify_candidates@.len() < after.verify_candidates@.len() {
        assert(after@.verify_candidates[i] == after.verify_candidates@[i]@);
        assert(before@.verify_candidates[i] == before.verify_candidates@[i]@);
    }
}

/// At first nothing is created, and nothing is downloaded.
pub proof fn counts_begin_at_zero(
    result: PrepareResult,
    total: u64,
    progress: DownloadProgress,
)
    requires
        call_ensures(PrepareResult::new, (), result),
        call_ensures(DownloadProgress::new, (total,), progress),
    ensures
        result.dirs_created == 0,
        result.files_created == 0,
        result.symlinks_created == 0,
        result.total_bytes == 0,
        result.verify_candidates@.len() == 0,
        progress.chunks_done == 0,
        progress.chunks_total == total,
        progress.bytes_downloaded == 0,
        progress.chunks_verified == 0,
{
    assert(result@.verify_candidates.len() == 0);
}

// ---------------------------------------------------------------------------
// The chunks
// ---------------------------------------------------------------------------

/// Every chunk of every file that the plan creates has its job, for the path
/// of that file, in the order of the manifest; and there are no other jobs.
pub proof fn no_chunk_is_left_out(
    manifest: &DepotManifest,
    options: PathOptions,
    jobs: Vec<ChunkJob>,
    i: int,
    c: int,
)
    requires
        call_ensures(plan_jobs, (manifest, options), jobs),
    ensures
        jobs@.len() == all_chunks_to_have(manifest.payload.mappings@),
        0 <= i < manifest.payload.mappings@.len() && 0 <= c
            < manifest.payload.mappings@[i].chunks@.len() && chunks_to_have(
            manifest.payload.mappings@[i],
        ) > 0 ==> {
            let place = all_chunks_to_have(manifest.payload.mappings@.take(i)) + c;
            &&& place < jobs@.len()
            &&& is_work_of(
                jobs@[place],
                relative_path(options, manifest.payload.mappings@[i].filename->0@),
                manifest.payload.mappings@[i].chunks@[c],
            )
        },
{
    let mappings = manifest.payload.mappings@;
    crate::download::jobs_are_counted(jobs@, mappings, options);
    if 0 <= i < mappings.len() && 0 <= c < mappings[i].chunks@.len() {
        every_chunk_has_its_job(jobs@, mappings, options, i, c);
    }
}

/// A job is to be checked where its own path was kept; where it is to be
/// checked, a kept path has the same components in the install directory.
pub proof fn kept_files_are_checked(
    install_dir: &str,
    jobs: &Vec<ChunkJob>,
    candidates: &Vec<String>,
    flags: Vec<bool>,
    i: int,
)
    requires
        call_ensures(jobs_to_check, (install_dir, jobs, candidates), flags),
    ensures
        flags@.len() == jobs@.len(),
        0 <= i < jobs@.len() && (exists|k: int|
            0 <= k < candidates@.len() && (#[trigger] candidates@[k])@ == jobs@[i].path@)
            ==> flags@[i],
        0 <= i < jobs@.len() && flags@[i] ==> exists|k: int|
            0 <= k < candidates@.len() && components(
                joined_path(install_dir@, (#[trigger] candidates@[k])@),
            ) == components(joined_path(install_dir@, jobs@[i].path@)),
{
    kept_names_are_checked_first(install_dir@, candidates@, jobs@[i].path@);
}

/// A job is to be checked wherever a kept path has the same components as its
/// own, seen from the install directory, and begins alike: with a slash or
/// not, with a single dot or not.
pub proof fn same_components_are_the_same_file(
    install_dir: &str,
    jobs: &Vec<ChunkJob>,
    candidates: &Vec<String>,
    flags: Vec<bool>,
    i: int,
    k: int,
)
    requires
        call_ensures(jobs_to_check, (install_dir, jobs, candidates), flags),
        0 <= i < jobs@.len(),
        0 <= k < candidates@.len(),
        ({
            let a = joined_path(install_dir@, candidates@[k]@);
            let b = joined_path(install_dir@, jobs@[i].path@);
            &&& components(a) == components(b)
            &&& (a.len() > 0 && a[0] == '/') == (b.len() > 0 && b[0] == '/')
            &&& (a.len() > 0 && a[0] == '.' && (a.len() == 1 || a[1] == '/')) == (b.len() > 0 && b[0]
                == '.' && (b.len() == 1 || b[1] == '/'))
        }),
    ensures
        flags@[i],
{
    let a = joined_path(install_dir@, candidates@[k]@);
    let b = joined_path(install_dir@, jobs@[i].path@);
    assert(crate::paths::same_place(a, b));
    assert(crate::download::among(install_dir@, candidates@, jobs@[i].path@));
}

/// A repeated slash makes no difference to what is checked.
pub proof fn repeated_slashes_make_no_difference(
    install_dir: &str,
    jobs: &Vec<ChunkJob>,
    candidates: &Vec<String>,
    flags: Vec<bool>,
    front: Seq<char>,
    back: Seq<char>,
    i: int,
    k: int,
)
    requires
        call_ensures(jobs_to_check, (install_dir, jobs, candidates), flags),
        install_dir@.len() > 0,
        0 <= i < jobs@.len(),
        0 <= k < candidates@.len(),
        front.len() > 0,
        front[0] != '/',
        jobs@[i].path@ == front + seq!['/'] + back,
        candidates@[k]@ == front + seq!['/', '/'] + back,
    ensures
        flags@[i],
{
    reveal_strlit("/");
    let dir = install_dir@;
    let a = joined_path(dir, candidates@[k]@);
    let b = joined_path(dir, jobs@[i].path@);
    let slash = if dir.last() == '/' {
        Seq::<char>::empty()
    } else {
        "/"@
    };
    let start = dir + slash + front;
    assert(b =~= start + seq!['/'] + back);
    assert(a =~= start + seq!['/'] + (Seq::<char>::empty() + seq!['/'] + back));
    slashes_part_components(start, back);
    slashes_part_components(start, Seq::<char>::empty() + seq!['/'] + back);
    slashes_part_components(Seq::<char>::empty(), back);
    assert(components(a) =~= components(b));
    assert(a[0] == b[0] && (a.len() > 1 && b.len() > 1));
    assert(a[0] == '.' ==> (a[1] == '/') == (b[1] == '/')) by {
        if start.len() >= 2 {
            assert(a[1] == start[1] && b[1] == start[1]);
        }
    }
    assert(crate::paths::same_place(a, b));
    assert(crate::download::among(dir, candidates@, jobs@[i].path@));
}

/// The address of a chunk with a token is the address without one, with the
/// token behind it; that one is made of the parts that name the chunk.
pub proof fn chunk_address_names_the_chunk(
    server: &CdnServer,
    depot_id: u32,
    sha_hex: &str,
    token: &str,
    bare: String,
    full: String,
)
    requires
        call_ensures(chunk_url, (server, depot_id, sha_hex, None), bare),
        call_ensures(chunk_url, (server, depot_id, sha_hex, Some(token)), full),
    ensures
        full@ == bare@ + token@,
        bare@ == seq!['h', 't', 't', 'p', 's', ':', '/', '/'] + server.vhost@ + seq![
            '/',
            'd',
            'e',
            'p',
            'o',
            't',
            '/',
        ] + decimal(depot_id as nat) + seq!['/', 'c', 'h', 'u', 'n', 'k', '/'] + sha_hex@,
{
    chunk_address_is_made_of_its_parts(server.vhost@, depot_id, sha_hex@, token@);
}

/// A chunk is asked of a server of the pool that none has failed less often
/// than; the address is that of the chunk on that server, and nothing but a
/// token of that server for the depot, stored and not expired, goes behind it.
pub proof fn chunk_is_asked_of_a_good_server(
    pool: &CdnPool,
    depot_id: u32,
    sha_hex: &str,
    now: u32,
    source: ChunkSource,
    other: int,
)
    requires
        call_ensures(chunk_source_at, (pool, depot_id, sha_hex, now), source),
        0 <= other < pool.servers().len(),
    ensures
        penalty_of(pool.penalties(), source.host@) <= penalty_of(
            pool.penalties(),
            pool.servers()[other].host@,
        ),
        exists|server: int|
            0 <= server < pool.servers().len() && (#[trigger] pool.servers()[server]).host@
                == source.host@ && (other < server ==> penalty_of(pool.penalties(), source.host@)
                < penalty_of(pool.penalties(), pool.servers()[other].host@)) && {
                let bare = seq!['h', 't', 't', 'p', 's', ':', '/', '/']
                    + pool.servers()[server].vhost@ + seq!['/', 'd', 'e', 'p', 'o', 't', '/']
                    + decimal(depot_id as nat) + seq!['/', 'c', 'h', 'u', 'n', 'k', '/'] + sha_hex@;
                match crate::cdn::lasting_token(pool.tokens(), depot_id, source.host@, now) {
                    Some(token) => token.expiration > now && source.url@ == bare + token.token@,
                    None => source.url@ == bare,
                }
            },
{
    let server = choose|server: int| #[trigger]
        is_source(pool, depot_id, sha_hex@, server, now, source);
    crate::download::chunk_is_asked_of_the_best_server(
        pool,
        depot_id,
        sha_hex@,
        server,
        now,
        source,
        other,
    );
    chunk_address_is_made_of_its_parts(
        pool.servers()[server].vhost@,
        depot_id,
        sha_hex@,
        Seq::empty(),
    );
    assert(pool.servers()[server].host@ == source.host@);
}

/// What passes and is tried again goes by the status alone: the words of an
/// error have no part in it.
pub proof fn failures_pass_by_their_status(
    sha_hex: &str,
    status: u16,
    detail: &str,
    e: Error,
    passes: bool,
)
    requires
        call_ensures(chunk_status_failure, (sha_hex, status, detail), e),
        call_ensures(is_retryable, (&e,), passes),
    ensures
        passes <==> status == 403 || status == 404 || status == 429 || status == 500 || status
            == 502 || status == 503,
        match e {
            Error::Status { status: told, context } => told == status && context@
                == "chunk download "@ + sha_hex@ + ": "@ + detail@,
            _ => false,
        },
{
    passing_failures_are_these(e@, 0);
    let listed = seq![403u16, 404, 429, 500, 502, 503];
    assert(listed[0] == 403 && listed[1] == 404 && listed[2] == 429 && listed[3] == 500 && listed[4]
        == 502 && listed[5] == 503);
    assert(listed.contains(status) <==> passes);
}

/// Of other failures, a connection that failed or timed out passes, and no
/// error that is told in words.
pub proof fn other_failures_pass_or_not(e: &Error, passes: bool)
    requires
        call_ensures(is_retryable, (e,), passes),
    ensures
        match *e {
            Error::Http(failure) => failure.status is None ==> passes == (failure.connect
                || failure.timeout),
            Error::Status { .. } => true,
            _ => !passes,
        },
{
}

/// A download that succeeds ends the work on a chunk and counts against
/// nobody. One that fails is made again, up to three times, where the failure
/// may pass: then it counts against the host, and against no other.
pub proof fn downloads_are_tried_again(
    pool: &mut CdnPool,
    host: &str,
    other: Seq<char>,
    attempt: u32,
    outcome: Result<u64, Error>,
    passes: bool,
    step: ChunkStep,
)
    requires
        penalty_of(old(pool).penalties(), host@) < u32::MAX,
        call_ensures(after_download, (pool, host, attempt, outcome), step),
        outcome is Err ==> call_ensures(is_retryable, (&outcome->Err_0,), passes),
    ensures
        final(pool).servers() == old(pool).servers(),
        final(pool).tokens() == old(pool).tokens(),
        match outcome {
            Ok(bytes) => step == (ChunkStep::Done { verified: false, bytes }) && penalty_of(
                final(pool).penalties(),
                other,
            ) == penalty_of(old(pool).penalties(), other),
            Err(e) => if passes && attempt < 3 {
                (step matches ChunkStep::Download { attempt: next } && next == attempt + 1)
                    && penalty_of(final(pool).penalties(), other) == penalty_of(
                    old(pool).penalties(),
                    other,
                ) + if other == host@ {
                    1int
                } else {
                    0
                }
            } else {
                step == ChunkStep::Failed(e) && penalty_of(final(pool).penalties(), other)
                    == penalty_of(old(pool).penalties(), other)
            },
        },
{
}

/// A chunk whose file was kept is checked before it is downloaded; one that is
/// right on disk is not downloaded at all.
pub proof fn right_chunks_are_not_downloaded(
    to_check: bool,
    first: ChunkStep,
    right: bool,
    second: ChunkStep,
)
    requires
        call_ensures(first_step, (to_check,), first),
        call_ensures(after_check, (right,), second),
    ensures
        to_check <==> first is Check,
        !to_check <==> first is Download,
        right <==> second is Done,
        !right <==> second is Download,
        first matches ChunkStep::Download { attempt } ==> attempt == 0,
        second matches ChunkStep::Download { attempt } ==> attempt == 0,
        second matches ChunkStep::Done { verified, bytes } ==> verified && bytes == 0,
{
}

/// One more chunk counts as done, and as verified where it was right on disk;
/// its bytes are added to those downloaded.
pub proof fn progress_goes_chunk_by_chunk(
    progress: &mut DownloadProgress,
    verified: bool,
    bytes: u64,
    nothing: (),
)
    requires
        old(progress).wf(),
        old(progress).chunks_done < old(progress).chunks_total,
        old(progress).bytes_downloaded + bytes <= u64::MAX,
        call_ensures(DownloadProgress::record, (progress, verified, bytes), nothing),
    ensures
        final(progress).chunks_done == old(progress).chunks_done + 1,
        final(progress).chunks_total == old(progress).chunks_total,
        final(progress).bytes_downloaded == old(progress).bytes_downloaded + bytes,
        final(progress).chunks_verified == old(progress).chunks_verified + if verified {
            1int
        } else {
            0
        },
{
}

/// Four chunks are checked at a time for each processor, but never fewer than
/// 16 nor more than 128.
pub proof fn checks_run_within_bounds(processors: usize, n: usize, unknown: usize)
    requires
        call_ensures(verify_concurrency, (Some(processors),), n),
        call_ensures(verify_concurrency, (None,), unknown),
    ensures
        16 <= n <= 128,
        4 <= processors <= 32 ==> n == 4 * processors,
        processors < 4 ==> n == 16,
        processors > 32 ==> n == 128,
        unknown == 16,
{
}

/// A read goes on behind what it has read until all is read; a file that ends
/// before that is a failure.
pub proof fn reads_go_on_until_full(read: &mut PositionedRead, n: usize, r: ReadStep)
    requires
        old(read).filled < old(read).length,
        old(read).filled + n <= old(read).length,
        old(read).offset + n <= u64::MAX,
        call_ensures(PositionedRead::step, (read, ReadEvent::Read(n)), r),
    ensures
        final(read).offset == old(read).offset + n,
        final(read).filled == old(read).filled + n,
        final(read).length == old(read).length,
        r is Failed <==> n == 0,
        r is Full <==> n > 0 && final(read).filled == final(read).length,
{
}

/// A read begins with nothing. One that is interrupted is made again where it
/// was, and one that fails is a failure as it is told.
pub proof fn reads_that_bring_nothing(
    offset: u64,
    length: usize,
    first: PositionedRead,
    interrupted: &mut PositionedRead,
    failed: &mut PositionedRead,
    text: String,
    again: ReadStep,
    over: ReadStep,
)
    requires
        call_ensures(PositionedRead::new, (offset, length), first),
        call_ensures(PositionedRead::step, (interrupted, ReadEvent::Interrupted), again),
        call_ensures(PositionedRead::step, (failed, ReadEvent::Failed(text)), over),
    ensures
        first.offset == offset && first.filled == 0 && first.length == length,
        again is More,
        *final(interrupted) == *old(interrupted),
        match over {
            ReadStep::Failed(Error::Io(told)) => told@ == text@,
            _ => false,
        },
        *final(failed) == *old(failed),
{
}

} // verus!
