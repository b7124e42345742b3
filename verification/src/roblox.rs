//! Plain data types for the asset-marketplace collaborator and the verified
//! decision rules the backend applies to them. The HTTP calls themselves
//! live outside the library and hand these types in and out.

use vstd::prelude::*;

verus! {

/// Kind of a marketplace asset. The marketplace identifies each kind by a
/// numeric code, `type_id`.
#[derive(Clone, Copy, Debug, PartialEq, Eq, PartialOrd, Ord, Hash, Default)]
pub enum AssetType {
    #[default]
    Image,
    Audio,
    Mesh,
    Lua,
    Model,
    Decal,
}

impl AssetType {
    /// The marketplace's numeric code for this asset kind.
    pub open spec fn spec_type_id(self) -> u8 {
        match self {
            AssetType::Image => 1,
            AssetType::Audio => 3,
            AssetType::Mesh => 4,
            AssetType::Lua => 5,
            AssetType::Model => 10,
            AssetType::Decal => 13,
        }
    }

    /// The asset kind a marketplace code stands for, `None` for any other
    /// code.
    pub open spec fn spec_from_type_id(id: u8) -> Option<AssetType> {
        if id == 1 {
            Some(AssetType::Image)
        } else if id == 3 {
            Some(AssetType::Audio)
        } else if id == 4 {
            Some(AssetType::Mesh)
        } else if id == 5 {
            Some(AssetType::Lua)
        } else if id == 10 {
            Some(AssetType::Model)
        } else if id == 13 {
            Some(AssetType::Decal)
        } else {
            None
        }
    }

    /// The marketplace's numeric code for this asset kind.
    pub fn type_id(&self) -> (id: u8)
        ensures
            id == self.spec_type_id(),
    {
        match self {
            AssetType::Image => 1,
            AssetType::Audio => 3,
            AssetType::Mesh => 4,
            AssetType::Lua => 5,
            AssetType::Model => 10,
            AssetType::Decal => 13,
        }
    }

    /// The asset kind for a marketplace code, `None` for an unknown code.
    pub fn from_type_id(id: u8) -> (r: Option<AssetType>)
        ensures
            r == AssetType::spec_from_type_id(id),
    {
        match id {
            1 => Some(AssetType::Image),
            3 => Some(AssetType::Audio),
            4 => Some(AssetType::Mesh),
            5 => Some(AssetType::Lua),
            10 => Some(AssetType::Model),
            13 => Some(AssetType::Decal),
            _ => None,
        }
    }
}

/// Whether an asset's creator is a single user or a group.
#[derive(Clone, Copy, Debug, PartialEq, Eq, PartialOrd, Ord, Hash, Default)]
pub enum CreatorType {
    #[default]
    User,
    Group,
}

/// The creator of a marketplace asset.
#[derive(Clone, Debug, PartialEq, Eq, PartialOrd, Ord, Hash, Default)]
pub struct Creator {
    pub id: i64,
    pub has_verified_badge: bool,
    pub creator_type: CreatorType,
    pub target_id: i64,
    pub name: String,
}

/// The marketplace's description of an asset.
#[derive(Clone, Debug)]
pub struct ItemDetails {
    pub id: i64,
    pub target_id: i64,
    pub product_id: i64,
    pub asset_type_id: Option<AssetType>,
    pub name: String,
    pub description: String,
    pub creator: Creator,
    pub price_in_robux: Option<u64>,
    pub is_for_sale: Option<bool>,
    pub is_public_domain: Option<bool>,
}

/// Body of an asset purchase request.
#[derive(Clone, Debug)]
pub struct AssetPurchaseReq {
    pub expected_currency: u64,
    pub expected_price: u64,
}

/// One download location in an asset-delivery answer.
#[derive(Clone, Debug)]
pub struct AssetDeliveryLocation {
    pub asset_format: String,
    pub location: String,
}

/// An asset-delivery answer: where the asset's bytes can be fetched.
#[derive(Clone, Debug)]
pub struct AssetDeliveryResponse {
    pub locations: Vec<AssetDeliveryLocation>,
    pub request_id: String,
    pub asset_type_id: AssetType,
}

/// One error entry of a marketplace error answer.
#[derive(Clone, Debug)]
pub struct RobloxError {
    pub code: u16,
    pub message: String,
}

/// A marketplace error answer: a list of error entries.
#[derive(Clone, Debug)]
pub struct RobloxApiError {
    pub errors: Vec<RobloxError>,
}

impl RobloxApiError {
    /// The message of the first error entry, `None` when the answer holds no
    /// entry at all.
    pub fn first_message(&self) -> (r: Option<String>)
        ensures
            match r {
                Some(m) => self.errors@.len() > 0 && m@ == self.errors@[0].message@,
                None => self.errors@.len() == 0,
            },
    {
        if self.errors.len() > 0 {
            Some(self.errors[0].message.clone())
        } else {
            None
        }
    }
}

/// The backend's verdict on whitelisting an asset its owner submitted, in
/// the order the rules are checked: the asset must be claimable for free
/// (public domain), must be a model, and must not cost robux.
#[derive(Clone, Copy, Debug, PartialEq, Eq, Structural)]
pub enum WhitelistVerdict {
    Approved,
    NotForSale,
    NotModel,
    CostsRobux,
}

impl WhitelistVerdict {
    /// The backend's error text for this verdict; empty for an approval.
    pub open spec fn spec_message(self) -> Seq<char> {
        match self {
            WhitelistVerdict::Approved => ""@,
            WhitelistVerdict::NotForSale => "Asset is not for sale."@,
            WhitelistVerdict::NotModel => "Asset type is not a Model."@,
            WhitelistVerdict::CostsRobux => "Asset costs robux."@,
        }
    }

    /// The backend's error text for this verdict; empty for an approval.
    pub fn message(&self) -> (m: String)
        ensures
            m@ == self.spec_message(),
    {
        match self {
            WhitelistVerdict::Approved => "".to_owned(),
            WhitelistVerdict::NotForSale => "Asset is not for sale.".to_owned(),
            WhitelistVerdict::NotModel => "Asset type is not a Model.".to_owned(),
            WhitelistVerdict::CostsRobux => "Asset costs robux.".to_owned(),
        }
    }
}

/// The verdict the whitelist rules give to an asset description: rejected
/// unless the asset is public domain, of the model kind, and free; the first
/// failing rule, in that order, names the verdict.
pub open spec fn spec_whitelist_verdict(details: ItemDetails) -> WhitelistVerdict {
    if details.is_public_domain != Some(true) {
        WhitelistVerdict::NotForSale
    } else if details.asset_type_id != Some(AssetType::Model) {
        WhitelistVerdict::NotModel
    } else if details.price_in_robux matches Some(p) && p > 0 {
        WhitelistVerdict::CostsRobux
    } else {
        WhitelistVerdict::Approved
    }
}

/// Applies the whitelist rules to an asset description that its owner asked
/// to whitelist. The caller performs the purchase only on an approval.
pub fn whitelist_verdict(details: &ItemDetails) -> (v: WhitelistVerdict)
    ensures
        v == spec_whitelist_verdict(*details),
{
    match details.is_public_domain {
        Some(true) => {},
        _ => {
            return WhitelistVerdict::NotForSale;
        },
    }
    match details.asset_type_id {
        Some(AssetType::Model) => {},
        _ => {
            return WhitelistVerdict::NotModel;
        },
    }
    match details.price_in_robux {
        Some(p) => {
            if p > 0 {
                WhitelistVerdict::CostsRobux
            } else {
                WhitelistVerdict::Approved
            }
        },
        None => WhitelistVerdict::Approved,
    }
}

} // verus!
