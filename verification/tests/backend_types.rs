use backend_core::database::{api_key_seed, banned_until_time, make_ban_entry};
use backend_core::id_converter::index_of;
use backend_core::luau::{luau_find_global_function_usage, LuauStmt};
use backend_core::roblox::{
    whitelist_verdict, AssetType, Creator, CreatorType, ItemDetails, RobloxApiError, RobloxError,
    WhitelistVerdict,
};

fn model_item() -> ItemDetails {
    ItemDetails {
        id: 42,
        target_id: 42,
        product_id: 7,
        asset_type_id: Some(AssetType::Model),
        name: "Chair".to_string(),
        description: "A chair.".to_string(),
        creator: Creator {
            id: 1,
            has_verified_badge: false,
            creator_type: CreatorType::User,
            target_id: 1,
            name: "someone".to_string(),
        },
        price_in_robux: Some(0),
        is_for_sale: Some(true),
        is_public_domain: Some(true),
    }
}

#[test]
fn index_of_positions() {
    assert_eq!(index_of("abc", 'a'), Some(0));
    assert_eq!(index_of("abc", 'c'), Some(2));
    assert_eq!(index_of("abc", 'x'), None);
    assert_eq!(index_of("", 'a'), None);
    assert_eq!(index_of("5432189076", '0'), Some(7));
    // the first occurrence wins
    assert_eq!(index_of("aba", 'a'), Some(0));
}

#[test]
fn asset_type_codes() {
    assert_eq!(AssetType::Image.type_id(), 1);
    assert_eq!(AssetType::Audio.type_id(), 3);
    assert_eq!(AssetType::Mesh.type_id(), 4);
    assert_eq!(AssetType::Lua.type_id(), 5);
    assert_eq!(AssetType::Model.type_id(), 10);
    assert_eq!(AssetType::Decal.type_id(), 13);
    for t in [
        AssetType::Image,
        AssetType::Audio,
        AssetType::Mesh,
        AssetType::Lua,
        AssetType::Model,
        AssetType::Decal,
    ] {
        assert_eq!(AssetType::from_type_id(t.type_id()), Some(t));
    }
    assert_eq!(AssetType::from_type_id(2), None);
    assert_eq!(AssetType::from_type_id(0), None);
}

#[test]
fn whitelist_approves_free_public_model() {
    let item = model_item();
    assert_eq!(whitelist_verdict(&item), WhitelistVerdict::Approved);
    let mut no_price = model_item();
    no_price.price_in_robux = None;
    assert_eq!(whitelist_verdict(&no_price), WhitelistVerdict::Approved);
}

#[test]
fn whitelist_rejects_non_public_domain() {
    let mut item = model_item();
    item.is_public_domain = Some(false);
    assert_eq!(whitelist_verdict(&item), WhitelistVerdict::NotForSale);
    item.is_public_domain = None;
    assert_eq!(whitelist_verdict(&item), WhitelistVerdict::NotForSale);
    assert_eq!(
        whitelist_verdict(&item).message(),
        "Asset is not for sale."
    );
}

#[test]
fn whitelist_rejects_non_model() {
    let mut item = model_item();
    item.asset_type_id = Some(AssetType::Decal);
    assert_eq!(whitelist_verdict(&item), WhitelistVerdict::NotModel);
    item.asset_type_id = None;
    assert_eq!(whitelist_verdict(&item), WhitelistVerdict::NotModel);
    assert_eq!(
        whitelist_verdict(&item).message(),
        "Asset type is not a Model."
    );
}

#[test]
fn whitelist_rejects_priced_asset() {
    let mut item = model_item();
    item.price_in_robux = Some(25);
    assert_eq!(whitelist_verdict(&item), WhitelistVerdict::CostsRobux);
    assert_eq!(whitelist_verdict(&item).message(), "Asset costs robux.");
    // the public-domain rule is checked before the price rule
    item.is_public_domain = None;
    assert_eq!(whitelist_verdict(&item), WhitelistVerdict::NotForSale);
}

#[test]
fn first_error_message() {
    let empty = RobloxApiError { errors: vec![] };
    assert_eq!(empty.first_message(), None);
    let answer = RobloxApiError {
        errors: vec![
            RobloxError {
                code: 0,
                message: "User is not authorized to access Asset.".to_string(),
            },
            RobloxError {
                code: 1,
                message: "second".to_string(),
            },
        ],
    };
    assert_eq!(
        answer.first_message(),
        Some("User is not authorized to access Asset.".to_string())
    );
}

#[test]
fn ban_end_times() {
    assert_eq!(banned_until_time(1000, -1), -1);
    assert_eq!(banned_until_time(1000, 2), 1120);
    assert_eq!(banned_until_time(1000, 0), 1000);
    assert_eq!(banned_until_time(0, 60), 3600);
}

#[test]
fn ban_entry_fields() {
    let e = make_ban_entry(77, 5000, 10, "mod", "spam");
    assert_eq!(e.user_id, 77);
    assert_eq!(e.banned_time, 5000);
    assert_eq!(e.banned_until, 5600);
    assert_eq!(e.moderator, "mod");
    assert_eq!(e.reason, "spam");
    let permanent = make_ban_entry(77, 5000, -1, "mod", "spam");
    assert_eq!(permanent.banned_until, -1);
}

#[test]
fn api_key_seed_formula() {
    assert_eq!(api_key_seed(0, 0), 0);
    assert_eq!(api_key_seed(3, 10), 44);
    assert_eq!(api_key_seed(1, 1_700_000_000_000), 3_400_000_000_008);
}

#[test]
fn luau_search_finds_nested_calls() {
    let tree = vec![
        LuauStmt::Call {
            name: "require".to_string(),
            start: 0,
            end: 7,
        },
        LuauStmt::Other,
        LuauStmt::Block(vec![
            LuauStmt::Call {
                name: "print".to_string(),
                start: 20,
                end: 25,
            },
            LuauStmt::Block(vec![LuauStmt::Call {
                name: "require".to_string(),
                start: 40,
                end: 47,
            }]),
        ]),
        LuauStmt::Call {
            name: "require".to_string(),
            start: 60,
            end: 67,
        },
    ];
    assert_eq!(
        luau_find_global_function_usage(&tree, "require"),
        vec![(0, 7), (40, 47), (60, 67)]
    );
    assert_eq!(
        luau_find_global_function_usage(&tree, "print"),
        vec![(20, 25)]
    );
    assert_eq!(luau_find_global_function_usage(&tree, "missing"), vec![]);
    let empty: Vec<LuauStmt> = vec![];
    assert_eq!(luau_find_global_function_usage(&empty, "require"), vec![]);
}
