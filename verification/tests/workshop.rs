use steamdepot::workshop::{
    details_request, resolve_details, single_item, PublishedFileDetails,
};

fn details(id: u64) -> PublishedFileDetails {
    PublishedFileDetails {
        result: Some(1),
        publishedfileid: Some(id),
        consumer_appid: Some(107410),
        filename: Some("mod.bin".to_string()),
        file_size: Some(12),
        hcontent_file: Some(34),
        time_updated: Some(56),
    }
}

#[test]
fn no_request_is_made_for_no_items() {
    assert!(details_request(&[]).is_none());
    let r = details_request(&[3, 4]).unwrap();
    assert_eq!(r.publishedfileids, vec![3, 4]);
    assert_eq!(r.includemetadata, Some(true));
}

#[test]
fn items_are_resolved_or_warned_of() {
    let r = resolve_details(vec![
        details(1),
        PublishedFileDetails { result: Some(9), ..details(2) },
        PublishedFileDetails { result: None, publishedfileid: None, ..details(0) },
        PublishedFileDetails { consumer_appid: Some(0), ..details(3) },
        PublishedFileDetails { consumer_appid: None, ..details(4) },
        PublishedFileDetails { hcontent_file: None, ..details(5) },
        PublishedFileDetails {
            filename: None,
            file_size: None,
            time_updated: None,
            ..details(6)
        },
    ]);
    assert_eq!(r.items.len(), 2);
    let item = &r.items[0];
    assert_eq!((item.published_file_id, item.consumer_appid), (1, 107410));
    assert_eq!((item.manifest_id, item.filename.as_str()), (34, "mod.bin"));
    assert_eq!((item.file_size, item.time_updated), (12, 56));
    assert_eq!((r.items[1].filename.as_str(), r.items[1].file_size), ("", 0));
    assert_eq!(
        r.warnings,
        vec![
            "warning: workshop item 2 GetDetails returned eresult 9 (skipping)",
            "warning: workshop item 0 GetDetails returned eresult 0 (skipping)",
            "warning: workshop item 3 has no consumer_appid (skipping)",
            "warning: workshop item 4 has no consumer_appid (skipping)",
            "warning: workshop item 5 has no hcontent_file/manifest (skipping)",
        ]
    );
}

#[test]
fn a_single_item_must_resolve() {
    let items = resolve_details(vec![details(1), details(2)]).items;
    assert_eq!(single_item(1, items).unwrap().published_file_id, 1);
    let e = single_item(77, vec![]).unwrap_err();
    assert_eq!(
        e.message(),
        "workshop item 77 could not be resolved (unlisted, banned, or deleted?)"
    );
}
