//! The canonical phone-specification record shared by all parsers.

use vstd::prelude::*;
use crate::rawmap::RawMap;

verus! {

/// The character sequence of an optional string.
pub open spec fn opt_view(o: Option<String>) -> Option<Seq<char>> {
    match o {
        Some(s) => Some(s@),
        None => None,
    }
}

/// A copy of an optional string.
pub fn clone_opt(o: &Option<String>) -> (r: Option<String>)
    ensures
        opt_view(r) == opt_view(*o),
{
    match o {
        Some(s) => Some(s.clone()),
        None => None,
    }
}

/// A price as scraped from a product page. `amount_text` holds the page text
/// reduced to its numeric characters and dots; the decimal amount is that
/// text read as a number.
pub struct Price {
    pub raw: Option<String>,
    pub amount_text: String,
    pub currency: Option<String>,
    pub country: Option<String>,
}

#[verifier::ext_equal]
pub struct PriceModel {
    pub raw: Option<Seq<char>>,
    pub amount_text: Seq<char>,
    pub currency: Option<Seq<char>>,
    pub country: Option<Seq<char>>,
}

impl View for Price {
    type V = PriceModel;

    open spec fn view(&self) -> PriceModel {
        PriceModel {
            raw: opt_view(self.raw),
            amount_text: self.amount_text@,
            currency: opt_view(self.currency),
            country: opt_view(self.country),
        }
    }
}

/// The cameras of a phone, one description per role. `other` collects the
/// descriptions that fit no role, separated by `", "`.
pub struct Cameras {
    pub main: Option<String>,
    pub wide: Option<String>,
    pub ultra_wide: Option<String>,
    pub telephoto: Option<String>,
    pub macro_camera: Option<String>,
    pub selfie_camera: Option<String>,
    pub other: Option<String>,
}

#[verifier::ext_equal]
pub struct CamerasModel {
    pub main: Option<Seq<char>>,
    pub wide: Option<Seq<char>>,
    pub ultra_wide: Option<Seq<char>>,
    pub telephoto: Option<Seq<char>>,
    pub macro_camera: Option<Seq<char>>,
    pub selfie_camera: Option<Seq<char>>,
    pub other: Option<Seq<char>>,
}

impl CamerasModel {
    /// No camera described.
    pub open spec fn empty() -> CamerasModel {
        CamerasModel {
            main: None,
            wide: None,
            ultra_wide: None,
            telephoto: None,
            macro_camera: None,
            selfie_camera: None,
            other: None,
        }
    }
}

impl View for Cameras {
    type V = CamerasModel;

    open spec fn view(&self) -> CamerasModel {
        CamerasModel {
            main: opt_view(self.main),
            wide: opt_view(self.wide),
            ultra_wide: opt_view(self.ultra_wide),
            telephoto: opt_view(self.telephoto),
            macro_camera: opt_view(self.macro_camera),
            selfie_camera: opt_view(self.selfie_camera),
            other: opt_view(self.other),
        }
    }
}

impl Cameras {
    /// No camera described (the derived `Default` of the record).
    pub fn empty() -> (c: Cameras)
        ensures
            c@ == CamerasModel::empty(),
    {
        Cameras {
            main: None,
            wide: None,
            ultra_wide: None,
            telephoto: None,
            macro_camera: None,
            selfie_camera: None,
            other: None,
        }
    }
}

/// Where and when a record was scraped.
pub struct SourceInfo {
    pub url: String,
    pub scraped_at: String,
    pub source_name: Option<String>,
}

#[verifier::ext_equal]
pub struct SourceModel {
    pub url: Seq<char>,
    pub scraped_at: Seq<char>,
    pub source_name: Option<Seq<char>>,
}

impl View for SourceInfo {
    type V = SourceModel;

    open spec fn view(&self) -> SourceModel {
        SourceModel {
            url: self.url@,
            scraped_at: self.scraped_at@,
            source_name: opt_view(self.source_name),
        }
    }
}

/// Whether two records agree on what names them: brand, model and sources.
pub open spec fn same_identity(a: SpecModel, b: SpecModel) -> bool {
    a.brand == b.brand && a.model == b.model && a.sources == b.sources
}

/// A phone's specification record.
pub struct Spec {
    pub brand: Option<String>,
    pub model: String,
    pub model_id: Option<String>,
    pub release_date: Option<String>,
    pub dimensions: Option<String>,
    pub weight: Option<String>,
    pub display: Option<String>,
    pub os: Option<String>,
    pub chipset: Option<String>,
    pub cpu: Option<String>,
    pub gpu: Option<String>,
    pub memory: Option<String>,
    pub storage: Option<String>,
    pub cameras: Option<Cameras>,
    pub selfie_camera: Option<String>,
    pub battery: Option<String>,
    pub charging: Option<String>,
    pub sensors: Option<String>,
    pub price: Option<Price>,
    pub raw: RawMap,
    pub sources: Vec<SourceInfo>,
}

#[verifier::ext_equal]
pub struct SpecModel {
    pub brand: Option<Seq<char>>,
    pub model: Seq<char>,
    pub model_id: Option<Seq<char>>,
    pub release_date: Option<Seq<char>>,
    pub dimensions: Option<Seq<char>>,
    pub weight: Option<Seq<char>>,
    pub display: Option<Seq<char>>,
    pub os: Option<Seq<char>>,
    pub chipset: Option<Seq<char>>,
    pub cpu: Option<Seq<char>>,
    pub gpu: Option<Seq<char>>,
    pub memory: Option<Seq<char>>,
    pub storage: Option<Seq<char>>,
    pub cameras: Option<CamerasModel>,
    pub selfie_camera: Option<Seq<char>>,
    pub battery: Option<Seq<char>>,
    pub charging: Option<Seq<char>>,
    pub sensors: Option<Seq<char>>,
    pub price: Option<PriceModel>,
    pub raw: Map<Seq<char>, Seq<char>>,
    pub sources: Seq<SourceModel>,
}

pub open spec fn cameras_view(c: Option<Cameras>) -> Option<CamerasModel> {
    match c {
        Some(c) => Some(c@),
        None => None,
    }
}

pub open spec fn price_view(p: Option<Price>) -> Option<PriceModel> {
    match p {
        Some(p) => Some(p@),
        None => None,
    }
}

impl View for Spec {
    type V = SpecModel;

    open spec fn view(&self) -> SpecModel {
        SpecModel {
            brand: opt_view(self.brand),
            model: self.model@,
            model_id: opt_view(self.model_id),
            release_date: opt_view(self.release_date),
            dimensions: opt_view(self.dimensions),
            weight: opt_view(self.weight),
            display: opt_view(self.display),
            os: opt_view(self.os),
            chipset: opt_view(self.chipset),
            cpu: opt_view(self.cpu),
            gpu: opt_view(self.gpu),
            memory: opt_view(self.memory),
            storage: opt_view(self.storage),
            cameras: cameras_view(self.cameras),
            selfie_camera: opt_view(self.selfie_camera),
            battery: opt_view(self.battery),
            charging: opt_view(self.charging),
            sensors: opt_view(self.sensors),
            price: price_view(self.price),
            raw: self.raw@,
            sources: self.sources@.map_values(|s: SourceInfo| s@),
        }
    }
}

impl SpecModel {
    /// The record of a model with nothing else known.
    pub open spec fn blank(model: Seq<char>) -> SpecModel {
        SpecModel {
            brand: None,
            model: model,
            model_id: None,
            release_date: None,
            dimensions: None,
            weight: None,
            display: None,
            os: None,
            chipset: None,
            cpu: None,
            gpu: None,
            memory: None,
            storage: None,
            cameras: None,
            selfie_camera: None,
            battery: None,
            charging: None,
            sensors: None,
            price: None,
            raw: Map::empty(),
            sources: Seq::empty(),
        }
    }
}

impl Spec {
    /// A record for `model` with every other field empty.
    pub fn new(model: String) -> (s: Spec)
        ensures
            s@ == SpecModel::blank(model@),
    {
        let s = Spec {
            brand: None,
            model: model,
            model_id: None,
            release_date: None,
            dimensions: None,
            weight: None,
            display: None,
            os: None,
            chipset: None,
            cpu: None,
            gpu: None,
            memory: None,
            storage: None,
            cameras: None,
            selfie_camera: None,
            battery: None,
            charging: None,
            sensors: None,
            price: None,
            raw: RawMap::new(),
            sources: Vec::new(),
        };
        proof {
            assert(s@.sources =~= Seq::<SourceModel>::empty());
        }
        s
    }
}

} // verus!
