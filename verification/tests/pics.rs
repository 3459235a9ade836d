use steamdepot::pics::{
    access_tokens, depot_key_outcome, free_license_outcome, product_info_request, ProductInfoPart,
    ProductInfoResponse, RawProduct, RawToken,
};

fn raw(id: Option<u32>, buffer: Option<&[u8]>) -> RawProduct {
    RawProduct { id, change_number: id, buffer: buffer.map(|b| b.to_vec()) }
}

fn part(apps: Vec<RawProduct>, packages: Vec<RawProduct>, pending: Option<bool>) -> ProductInfoPart {
    ProductInfoPart {
        apps,
        unknown_appids: vec![100],
        packages,
        unknown_packageids: vec![200, 201],
        response_pending: pending,
    }
}

#[test]
fn answers_are_collected_until_none_is_pending() {
    let mut info = ProductInfoResponse::default();
    assert!(info.apps.is_empty());
    assert!(info.absorb(part(vec![raw(Some(1), Some(b"one"))], vec![], Some(true))));
    assert!(!info.absorb(part(vec![raw(None, None)], vec![raw(Some(5), Some(b"p"))], None)));
    assert_eq!(info.apps.len(), 2);
    assert_eq!((info.apps[0].appid, info.apps[0].change_number), (1, 1));
    assert_eq!(info.apps[0].buffer, b"one");
    assert_eq!((info.apps[1].appid, info.apps[1].buffer.len()), (0, 0));
    assert_eq!(info.packages.len(), 1);
    assert_eq!(info.packages[0].packageid, 5);
    assert_eq!(info.unknown_appids, vec![100, 100]);
    assert_eq!(info.unknown_packageids, vec![200, 201, 200, 201]);
    assert!(!info.absorb(part(vec![], vec![], Some(false))));
}

#[test]
fn incomplete_tokens_are_dropped() {
    let tokens = access_tokens(&vec![
        RawToken { id: Some(1), access_token: Some(10) },
        RawToken { id: None, access_token: Some(20) },
        RawToken { id: Some(3), access_token: None },
        RawToken { id: Some(1), access_token: Some(40) },
    ]);
    assert_eq!(tokens, vec![(1, 10), (1, 40)]);
}

#[test]
fn each_product_is_asked_for_with_its_first_token() {
    let r = product_info_request(&[1, 2], &[7], &vec![(2, 20), (1, 10), (1, 11)], &vec![]);
    let apps: Vec<_> = r.apps.iter().map(|a| (a.id, a.access_token)).collect();
    assert_eq!(apps, vec![(Some(1), Some(10)), (Some(2), Some(20))]);
    let packages: Vec<_> = r.packages.iter().map(|p| (p.id, p.access_token)).collect();
    assert_eq!(packages, vec![(Some(7), None)]);
    assert_eq!((r.meta_data_only, r.single_response), (Some(false), Some(false)));
}

#[test]
fn a_depot_key_is_given_or_refused() {
    assert_eq!(depot_key_outcome(1, 2, Some(1), Some(vec![9; 32])).unwrap(), vec![9; 32]);
    assert_eq!(depot_key_outcome(1, 2, Some(1), None).unwrap(), Vec::<u8>::new());
    for (code, shown, reason) in [
        (None, 2, "invalid depot/app combination"),
        (Some(2), 2, "invalid depot/app combination"),
        (Some(5), 5, "access denied — account doesn't own this app/depot"),
        (
            Some(15),
            15,
            "access denied — the account does not have a license for this app. \
             If this is a free game, claim the free license on the Steam account first",
        ),
        (Some(9), 9, "file not found — depot does not exist"),
        (Some(84), 84, "unexpected error"),
    ] {
        let e = depot_key_outcome(1, 2, code, None).unwrap_err();
        assert_eq!(
            e.message(),
            format!("depot 1 (app 2) decryption key: {reason} (result {shown})")
        );
    }
}

#[test]
fn a_free_license_is_granted_or_refused() {
    let granted = free_license_outcome(&[4], Some(1), vec![4], vec![8, 9]).unwrap();
    assert_eq!(granted.granted_appids, vec![4]);
    assert_eq!(granted.granted_packageids, vec![8, 9]);
    let e = free_license_outcome(&[4, 5], Some(2), vec![], vec![]).unwrap_err();
    assert_eq!(e.message(), "free license request for [4, 5] (result 2)");
    let e = free_license_outcome(&[], Some(u32::MAX), vec![], vec![]).unwrap_err();
    assert_eq!(e.message(), "free license request for [] (result -1)");
    let e = free_license_outcome(&[4], None, vec![], vec![]).unwrap_err();
    assert_eq!(e.message(), "free license request for [4] (result 2)");
}
