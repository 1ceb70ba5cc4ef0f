//! The record variants of the store, their unique keys, previews and
//! auxiliary computed data.
//!
//! Records form a closed sum type over schema versions; each variant
//! exposes a natural key, a compact preview, and (in `rank`) a score.

use vstd::prelude::*;

use crate::fixed::{dec_str_of, push_dec};
use crate::text::string_of_chars;

verus! {

/// Width of the auxiliary embedding vector attached to a record.
pub const EMBED_WIDTH: usize = 768;

/// The view of an option of a string.
pub open spec fn opt_view(o: Option<String>) -> Option<Seq<char>> {
    match o {
        Option::Some(s) => Option::Some(s@),
        Option::None => Option::None,
    }
}

/// A compact projection of a record for display.
pub struct GenericPreviewSearchData {
    pub img: String,
    pub name: String,
    pub description: String,
    pub props: String,
}

pub struct PreviewV {
    pub img: Seq<char>,
    pub name: Seq<char>,
    pub description: Seq<char>,
    pub props: Seq<char>,
}

impl View for GenericPreviewSearchData {
    type V = PreviewV;

    open spec fn view(&self) -> PreviewV {
        PreviewV {
            img: self.img@,
            name: self.name@,
            description: self.description@,
            props: self.props@,
        }
    }
}

/// One ranked search answer: the record's position, its score in
/// fixed-point units, its unique key, and its preview.
pub struct DetailedSearchResult {
    pub id: usize,
    pub rank: i64,
    pub event: String,
    pub page: GenericPreviewSearchData,
}

pub struct ResultV {
    pub id: int,
    pub rank: int,
    pub event: Seq<char>,
    pub page: PreviewV,
}

impl View for DetailedSearchResult {
    type V = ResultV;

    open spec fn view(&self) -> ResultV {
        ResultV { id: self.id as int, rank: self.rank as int, event: self.event@, page: self.page@ }
    }
}

/// The unique key of a record, derived from its natural field.
#[derive(PartialEq, Eq, Hash)]
pub struct UniqueString(pub String);

impl View for UniqueString {
    type V = Seq<char>;

    open spec fn view(&self) -> Seq<char> {
        self.0@
    }
}

/// Auxiliary data computed by an external analysis process and attached
/// to a record after ingestion. The embedding entries and the two side
/// scores hold IEEE-754 single-precision bit patterns; the store never
/// reads them, it only carries them.
#[derive(Clone)]
pub struct ComputedData {
    pub embedding: Vec<u32>,
    pub ai_description: u32,
    pub ai_code: u32,
}

pub struct ComputedV {
    pub embedding: Seq<u32>,
    pub ai_description: u32,
    pub ai_code: u32,
}

impl View for ComputedData {
    type V = ComputedV;

    open spec fn view(&self) -> ComputedV {
        ComputedV {
            embedding: self.embedding@,
            ai_description: self.ai_description,
            ai_code: self.ai_code,
        }
    }
}

impl ComputedData {
    /// A well-formed payload carries exactly one embedding entry per
    /// vector slot.
    pub open spec fn wf(self) -> bool {
        self.embedding@.len() == EMBED_WIDTH
    }
}

/// One development update of a legacy-schema record.
#[derive(Clone)]
pub struct Journey2025IndividualUpdate {
    pub time: String,
    pub message: String,
    pub attatchments: Vec<String>,
}

pub struct JourneyUpdateV {
    pub time: Seq<char>,
    pub message: Seq<char>,
    pub attatchments: Seq<Seq<char>>,
}

impl View for Journey2025IndividualUpdate {
    type V = JourneyUpdateV;

    open spec fn view(&self) -> JourneyUpdateV {
        JourneyUpdateV {
            time: self.time@,
            message: self.message@,
            attatchments: Seq::new(
                self.attatchments@.len(),
                |i: int| self.attatchments@[i]@,
            ),
        }
    }
}

/// A legacy-schema record, keyed by numeric id.
#[derive(Clone)]
pub struct Journey2025MainPage {
    pub id: u32,
    pub main_image: String,
    pub name: String,
    pub description: String,
    pub author: String,
    pub followers: u16,
    pub stonks: u16,
    pub time: String,
    pub readme: Option<String>,
    pub repo: Option<String>,
    pub demo: Option<String>,
    pub updates: Vec<Journey2025IndividualUpdate>,
}

pub struct JourneyV {
    pub id: u32,
    pub main_image: Seq<char>,
    pub name: Seq<char>,
    pub description: Seq<char>,
    pub author: Seq<char>,
    pub followers: u16,
    pub stonks: u16,
    pub time: Seq<char>,
    pub readme: Option<Seq<char>>,
    pub repo: Option<Seq<char>>,
    pub demo: Option<Seq<char>>,
    pub updates: Seq<JourneyUpdateV>,
}

impl View for Journey2025MainPage {
    type V = JourneyV;

    open spec fn view(&self) -> JourneyV {
        JourneyV {
            id: self.id,
            main_image: self.main_image@,
            name: self.name@,
            description: self.description@,
            author: self.author@,
            followers: self.followers,
            stonks: self.stonks,
            time: self.time@,
            readme: opt_view(self.readme),
            repo: opt_view(self.repo),
            demo: opt_view(self.demo),
            updates: Seq::new(self.updates@.len(), |i: int| self.updates@[i]@),
        }
    }
}

/// One development update of a current-schema record.
#[derive(Clone)]
pub struct Summer2025IndividualUpdate {
    pub time: u32,
    pub message: String,
    pub image: Option<String>,
}

pub struct SummerUpdateV {
    pub time: u32,
    pub message: Seq<char>,
    pub image: Option<Seq<char>>,
}

impl View for Summer2025IndividualUpdate {
    type V = SummerUpdateV;

    open spec fn view(&self) -> SummerUpdateV {
        SummerUpdateV { time: self.time, message: self.message@, image: opt_view(self.image) }
    }
}

/// A current-schema record, keyed by URL.
#[derive(Clone)]
pub struct Summer2025MainPage {
    pub url: String,
    pub main_image: String,
    pub name: String,
    pub description: String,
    pub author: String,
    pub followers: u16,
    pub time: u32,
    pub readme: Option<String>,
    pub repo: Option<String>,
    pub demo: Option<String>,
    pub updates: Vec<Summer2025IndividualUpdate>,
}

pub struct SummerV {
    pub url: Seq<char>,
    pub main_image: Seq<char>,
    pub name: Seq<char>,
    pub description: Seq<char>,
    pub author: Seq<char>,
    pub followers: u16,
    pub time: u32,
    pub readme: Option<Seq<char>>,
    pub repo: Option<Seq<char>>,
    pub demo: Option<Seq<char>>,
    pub updates: Seq<SummerUpdateV>,
}

impl View for Summer2025MainPage {
    type V = SummerV;

    open spec fn view(&self) -> SummerV {
        SummerV {
            url: self.url@,
            main_image: self.main_image@,
            name: self.name@,
            description: self.description@,
            author: self.author@,
            followers: self.followers,
            time: self.time,
            readme: opt_view(self.readme),
            repo: opt_view(self.repo),
            demo: opt_view(self.demo),
            updates: Seq::new(self.updates@.len(), |i: int| self.updates@[i]@),
        }
    }
}

/// The closed set of record schemas the store holds.
#[derive(Clone)]
pub enum ScrapedMainPageEnum {
    Journey2025(Journey2025MainPage),
    Summer2025(Summer2025MainPage),
}

pub enum PageV {
    Journey2025(JourneyV),
    Summer2025(SummerV),
}

impl View for ScrapedMainPageEnum {
    type V = PageV;

    open spec fn view(&self) -> PageV {
        match self {
            ScrapedMainPageEnum::Journey2025(j) => PageV::Journey2025(j@),
            ScrapedMainPageEnum::Summer2025(s) => PageV::Summer2025(s@),
        }
    }
}

/// The unique key of a record: its id's decimal digits for the legacy
/// schema, its URL for the current one.
pub open spec fn key_of(p: PageV) -> Seq<char> {
    match p {
        PageV::Journey2025(j) => dec_str_of(j.id as nat),
        PageV::Summer2025(s) => s.url,
    }
}

/// The preview of a record: image, title, description and a short
/// property string naming the number of updates.
pub open spec fn preview_of(p: PageV) -> PreviewV {
    match p {
        PageV::Journey2025(j) => PreviewV {
            img: j.main_image,
            name: j.name,
            description: j.description,
            props: "updates: "@ + dec_str_of(j.updates.len()),
        },
        PageV::Summer2025(s) => PreviewV {
            img: s.main_image,
            name: s.name,
            description: s.description,
            props: "updates: "@ + dec_str_of(s.updates.len()),
        },
    }
}

fn props_string(n_updates: usize) -> (r: String)
    ensures
        r@ == "updates: "@ + dec_str_of(n_updates as nat),
{
    let mut digits: Vec<char> = Vec::new();
    push_dec(n_updates as u64, &mut digits);
    let mut r = String::from_str("updates: ");
    r.append(string_of_chars(&digits).as_str());
    r
}

impl Journey2025MainPage {
    pub fn unique_string(&self) -> (r: UniqueString)
        ensures
            r@ == key_of(PageV::Journey2025(self@)),
    {
        let mut digits: Vec<char> = Vec::new();
        push_dec(self.id as u64, &mut digits);
        UniqueString(string_of_chars(&digits))
    }

    pub fn preview(&self) -> (r: GenericPreviewSearchData)
        ensures
            r@ == preview_of(PageV::Journey2025(self@)),
    {
        GenericPreviewSearchData {
            img: self.main_image.clone(),
            name: self.name.clone(),
            description: self.description.clone(),
            props: props_string(self.updates.len()),
        }
    }
}

impl Summer2025MainPage {
    pub fn unique_string(&self) -> (r: UniqueString)
        ensures
            r@ == key_of(PageV::Summer2025(self@)),
    {
        UniqueString(self.url.clone())
    }

    pub fn preview(&self) -> (r: GenericPreviewSearchData)
        ensures
            r@ == preview_of(PageV::Summer2025(self@)),
    {
        GenericPreviewSearchData {
            img: self.main_image.clone(),
            name: self.name.clone(),
            description: self.description.clone(),
            props: props_string(self.updates.len()),
        }
    }
}

impl ScrapedMainPageEnum {
    pub fn unique_string(&self) -> (r: UniqueString)
        ensures
            r@ == key_of(self@),
    {
        match self {
            ScrapedMainPageEnum::Journey2025(j) => j.unique_string(),
            ScrapedMainPageEnum::Summer2025(s) => s.unique_string(),
        }
    }

    pub fn preview(&self) -> (r: GenericPreviewSearchData)
        ensures
            r@ == preview_of(self@),
    {
        match self {
            ScrapedMainPageEnum::Journey2025(j) => j.preview(),
            ScrapedMainPageEnum::Summer2025(s) => s.preview(),
        }
    }
}

} // verus!
