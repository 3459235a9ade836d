//! Workshop items: which of them can be downloaded, and from where.

use vstd::prelude::*;

use crate::error::{Error, ErrorView};
use crate::proto::{text_of, text_or_empty, value_or};
use crate::text::{counted, decimal, push_decimal};

verus! {

/// The service method that tells of workshop items.
pub const DETAILS_METHOD: &'static str = "PublishedFile.GetDetails#1";

/// A workshop item that can be downloaded.
#[derive(Debug, Clone)]
pub struct WorkshopItem {
    pub published_file_id: u64,
    /// The app whose depot holds the item; also the number of that depot.
    pub consumer_appid: u32,
    pub manifest_id: u64,
    pub filename: String,
    pub file_size: u64,
    pub time_updated: u32,
}

/// A [`WorkshopItem`] over mathematical values.
pub struct WorkshopItemView {
    pub published_file_id: u64,
    pub consumer_appid: u32,
    pub manifest_id: u64,
    pub filename: Seq<char>,
    pub file_size: u64,
    pub time_updated: u32,
}

impl View for WorkshopItem {
    type V = WorkshopItemView;

    open spec fn view(&self) -> WorkshopItemView {
        WorkshopItemView {
            published_file_id: self.published_file_id,
            consumer_appid: self.consumer_appid,
            manifest_id: self.manifest_id,
            filename: self.filename@,
            file_size: self.file_size,
            time_updated: self.time_updated,
        }
    }
}

/// What the CM tells of a workshop item.
#[derive(Debug, Clone)]
pub struct PublishedFileDetails {
    pub result: Option<u32>,
    pub publishedfileid: Option<u64>,
    pub consumer_appid: Option<u32>,
    pub filename: Option<String>,
    pub file_size: Option<u64>,
    pub hcontent_file: Option<u64>,
    pub time_updated: Option<u32>,
}

/// Asks for details of workshop items.
#[derive(Debug, Clone)]
pub struct DetailsRequest {
    pub publishedfileids: Vec<u64>,
    pub includemetadata: Option<bool>,
}

/// The request for details of workshop items; none is made where there are no
/// items to ask for.
pub fn details_request(published_file_ids: &[u64]) -> (r: Option<DetailsRequest>)
    ensures
        match r {
            Some(request) => published_file_ids@.len() > 0 && request.publishedfileids@
                == published_file_ids@ && request.includemetadata == Some(true),
            None => published_file_ids@.len() == 0,
        },
{
    if published_file_ids.len() == 0 {
        return None;
    }
    let mut ids: Vec<u64> = Vec::new();
    ids.extend_from_slice(published_file_ids);
    assert(ids@ =~= published_file_ids@);
    Some(DetailsRequest { publishedfileids: ids, includemetadata: Some(true) })
}

/// The item that the CM tells of, or why it is passed over: the CM reports an
/// error for it, or it names no app or no manifest.
pub open spec fn item_of(details: PublishedFileDetails) -> Result<WorkshopItemView, Seq<char>> {
    let id = value_or(details.publishedfileid, 0);
    let head = "warning: workshop item "@ + decimal(id as nat);
    if value_or(details.result, 0) != 1 {
        Err(
            head + " GetDetails returned eresult "@ + decimal(value_or(details.result, 0) as nat)
                + " (skipping)"@,
        )
    } else if value_or(details.consumer_appid, 0) == 0 {
        Err(head + " has no consumer_appid (skipping)"@)
    } else if value_or(details.hcontent_file, 0) == 0 {
        Err(head + " has no hcontent_file/manifest (skipping)"@)
    } else {
        Ok(
            WorkshopItemView {
                published_file_id: id,
                consumer_appid: value_or(details.consumer_appid, 0),
                manifest_id: value_or(details.hcontent_file, 0),
                filename: value_or(text_of(details.filename), Seq::empty()),
                file_size: value_or(details.file_size, 0),
                time_updated: value_or(details.time_updated, 0),
            },
        )
    }
}

/// The items that the CM tells of and that can be downloaded, in its order.
pub open spec fn items_of_details(details: Seq<PublishedFileDetails>) -> Seq<WorkshopItemView>
    decreases details.len(),
{
    if details.len() == 0 {
        Seq::empty()
    } else {
        match item_of(details.last()) {
            Ok(item) => items_of_details(details.drop_last()).push(item),
            Err(_) => items_of_details(details.drop_last()),
        }
    }
}

/// Why the other items are passed over, in the order of the CM.
pub open spec fn warnings_of_details(details: Seq<PublishedFileDetails>) -> Seq<Seq<char>>
    decreases details.len(),
{
    if details.len() == 0 {
        Seq::empty()
    } else {
        match item_of(details.last()) {
            Ok(_) => warnings_of_details(details.drop_last()),
            Err(text) => warnings_of_details(details.drop_last()).push(text),
        }
    }
}

/// Every item either can be downloaded or is warned of; none is lost.
pub proof fn every_item_is_told_of(details: Seq<PublishedFileDetails>)
    ensures
        items_of_details(details).len() + warnings_of_details(details).len() == details.len(),
    decreases details.len(),
{
    if details.len() > 0 {
        every_item_is_told_of(details.drop_last());
    }
}

/// An item that can be downloaded names an app and a manifest.
pub proof fn resolved_items_are_complete(details: Seq<PublishedFileDetails>, i: int)
    requires
        0 <= i < items_of_details(details).len(),
    ensures
        items_of_details(details)[i].consumer_appid != 0,
        items_of_details(details)[i].manifest_id != 0,
    decreases details.len(),
{
    let fewer = items_of_details(details.drop_last());
    if i < fewer.len() {
        resolved_items_are_complete(details.drop_last(), i);
    }
}

/// An item that the CM reports without error, with an app and a manifest, can
/// be downloaded, and is taken field by field: its number, app, manifest, name,
/// size and time as the CM gives them. Any other item is passed over.
pub proof fn item_is_taken_field_by_field(details: PublishedFileDetails, item: WorkshopItem)
    ensures
        item_of(details) is Ok <==> details.result == Some(1u32) && details.consumer_appid is Some
            && details.consumer_appid->0 != 0 && details.hcontent_file is Some
            && details.hcontent_file->0 != 0,
        item_of(details) == Ok::<WorkshopItemView, Seq<char>>(item@) ==> {
            &&& item.consumer_appid == details.consumer_appid->0
            &&& item.manifest_id == details.hcontent_file->0
            &&& match details.publishedfileid {
                Some(id) => item.published_file_id == id,
                None => item.published_file_id == 0,
            }
            &&& match details.filename {
                Some(name) => item.filename@ == name@,
                None => item.filename@.len() == 0,
            }
            &&& match details.file_size {
                Some(size) => item.file_size == size,
                None => item.file_size == 0,
            }
            &&& match details.time_updated {
                Some(time) => item.time_updated == time,
                None => item.time_updated == 0,
            }
        },
{
}

/// The items of two answers, one behind the other, are the items of the first
/// and then those of the second; so are the warnings. One item alone is either
/// an item or a warning.
pub proof fn items_keep_their_order(a: Seq<PublishedFileDetails>, b: Seq<PublishedFileDetails>)
    ensures
        items_of_details(a + b) == items_of_details(a) + items_of_details(b),
        warnings_of_details(a + b) == warnings_of_details(a) + warnings_of_details(b),
        a.len() == 1 ==> match item_of(a[0]) {
            Ok(item) => items_of_details(a) == seq![item],
            Err(text) => warnings_of_details(a) == seq![text],
        },
    decreases b.len(),
{
    if b.len() == 0 {
        assert(a + b =~= a);
        assert(items_of_details(a) + items_of_details(b) =~= items_of_details(a));
        assert(warnings_of_details(a) + warnings_of_details(b) =~= warnings_of_details(a));
    } else {
        let fewer = b.drop_last();
        items_keep_their_order(a, fewer);
        assert((a + b).drop_last() =~= a + fewer);
        assert((a + b).last() == b.last());
        assert(items_of_details(a + b) =~= items_of_details(a) + items_of_details(b));
        assert(warnings_of_details(a + b) =~= warnings_of_details(a) + warnings_of_details(b));
    }
    if a.len() == 1 {
        assert(a.drop_last() =~= Seq::<PublishedFileDetails>::empty());
        assert(items_of_details(a.drop_last()) =~= Seq::<WorkshopItemView>::empty());
        assert(warnings_of_details(a.drop_last()) =~= Seq::<Seq<char>>::empty());
        match item_of(a[0]) {
            Ok(item) => {
                assert(items_of_details(a) =~= seq![item]);
            },
            Err(text) => {
                assert(warnings_of_details(a) =~= seq![text]);
            },
        }
    }
}

/// What became of the items that the CM told of.
#[derive(Debug)]
pub struct ResolvedItems {
    /// The items that can be downloaded.
    pub items: Vec<WorkshopItem>,
    /// Why the others are passed over, one line each.
    pub warnings: Vec<String>,
}

fn resolve_item(details: PublishedFileDetails) -> (r: Result<WorkshopItem, String>)
    ensures
        match r {
            Ok(item) => item_of(details) == Ok::<WorkshopItemView, Seq<char>>(item@),
            Err(text) => item_of(details) == Err::<WorkshopItemView, Seq<char>>(text@),
        },
{
    let id: u64 = match details.publishedfileid {
        Some(id) => id,
        None => 0,
    };
    let code: u32 = match details.result {
        Some(code) => code,
        None => 0,
    };
    let consumer_appid: u32 = match details.consumer_appid {
        Some(id) => id,
        None => 0,
    };
    let manifest_id: u64 = match details.hcontent_file {
        Some(id) => id,
        None => 0,
    };
    if code != 1 {
        let mut text: String = counted(
            "warning: workshop item ",
            id,
            " GetDetails returned eresult ",
        );
        push_decimal(&mut text, code as u64);
        text.append(" (skipping)");
        return Err(text);
    }
    if consumer_appid == 0 {
        return Err(counted("warning: workshop item ", id, " has no consumer_appid (skipping)"));
    }
    if manifest_id == 0 {
        return Err(
            counted("warning: workshop item ", id, " has no hcontent_file/manifest (skipping)"),
        );
    }
    Ok(
        WorkshopItem {
            published_file_id: id,
            consumer_appid,
            manifest_id,
            filename: text_or_empty(details.filename),
            file_size: match details.file_size {
                Some(size) => size,
                None => 0,
            },
            time_updated: match details.time_updated {
                Some(time) => time,
                None => 0,
            },
        },
    )
}

/// Sorts the items that the CM told of into those that can be downloaded and
/// those that are passed over.
pub fn resolve_details(details: Vec<PublishedFileDetails>) -> (r: ResolvedItems)
    ensures
        r.items@.map_values(|item: WorkshopItem| item@) == items_of_details(details@),
        r.warnings@.map_values(|text: String| text@) == warnings_of_details(details@),
{
    let ghost all = details@;
    let ghost item_view = |item: WorkshopItem| item@;
    let ghost text_view = |text: String| text@;
    let mut items: Vec<WorkshopItem> = Vec::new();
    let mut warnings: Vec<String> = Vec::new();
    assert(items@.map_values(item_view) =~= Seq::<WorkshopItemView>::empty());
    assert(warnings@.map_values(text_view) =~= Seq::<Seq<char>>::empty());
    for one in it: details
        invariant
            it.seq() == all,
            item_view == (|item: WorkshopItem| item@),
            text_view == (|text: String| text@),
            items@.map_values(item_view) == items_of_details(all.take(it.index() as int)),
            warnings@.map_values(text_view) == warnings_of_details(all.take(it.index() as int)),
    {
        let ghost items_before = items@;
        let ghost warnings_before = warnings@;
        proof {
            let i = it.index() as int;
            assert(all.take(i + 1).drop_last() =~= all.take(i));
            assert(all.take(i + 1).last() == all[i]);
        }
        match resolve_item(one) {
            Ok(item) => {
                items.push(item);
                assert(items@.map_values(item_view) =~= items_before.map_values(item_view).push(
                    item@,
                ));
            },
            Err(text) => {
                warnings.push(text);
                assert(warnings@.map_values(text_view) =~= warnings_before.map_values(
                    text_view,
                ).push(text@));
            },
        }
    }
    assert(all.take(all.len() as int) =~= all);
    ResolvedItems { items, warnings }
}

/// The first of the items that were resolved for `published_file_id`; where
/// there is none, the item cannot be had.
pub fn single_item(published_file_id: u64, items: Vec<WorkshopItem>) -> (r: Result<
    WorkshopItem,
    Error,
>)
    ensures
        match r {
            Ok(item) => items@.len() > 0 && item@ == items@[0]@,
            Err(e) => items@.len() == 0 && e@ == ErrorView::Other(
                "workshop item "@ + decimal(published_file_id as nat)
                    + " could not be resolved (unlisted, banned, or deleted?)"@,
            ),
        },
{
    if items.len() == 0 {
        return Err(
            Error::Other(
                counted(
                    "workshop item ",
                    published_file_id,
                    " could not be resolved (unlisted, banned, or deleted?)",
                ),
            ),
        );
    }
    let mut items: Vec<WorkshopItem> = items;
    Ok(items.swap_remove(0))
}

} // verus!
