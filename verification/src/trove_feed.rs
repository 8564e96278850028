//! The shape of the remote catalog's snapshot: a paginated set of products
//! with per-platform download descriptors and media URLs. The surrounding
//! program deserializes each fetched page into these types; the feed itself
//! owns no storage and carries no behaviour.

use vstd::prelude::*;

verus! {

/// The countdown the catalog page shows for its next addition.
#[derive(Clone, Debug)]
pub struct TimerOptions {
    pub current_time: String,
    pub next_addition_time: String,
}

/// Where one download can be fetched from.
#[derive(Clone, Debug)]
pub struct Url {
    pub web: String,
    pub bittorrent: Option<String>,
}

/// One platform's download descriptor: location, checksum and size.
#[derive(Clone, Debug)]
pub struct Download {
    pub machine_name: String,
    pub name: String,
    pub url: Url,
    pub file_size: u64,
    pub md5: String,
    pub size: Option<String>,
}

/// The media carousel of one product.
#[derive(Clone, Debug)]
pub struct CarouselContent {
    pub youtube_link: Option<Vec<String>>,
    pub thumbnail: Vec<String>,
    pub screenshot: Vec<String>,
}

/// One publisher credit.
#[derive(Clone, Debug)]
pub struct Publisher {
    pub publisher_name: String,
    pub publisher_uri: Option<String>,
}

/// The marketing blurb varies between a plain string and a structured
/// object, so it is a tagged union decoded with a fallback-ordered parse.
#[derive(Clone, Debug)]
pub enum Blurb {
    Text(String),
    Structured { text: String, style: String },
}

/// The publishers field is sometimes null and sometimes a list.
#[derive(Clone, Debug)]
pub enum Publishers {
    Absent,
    List(Vec<Publisher>),
}

/// One catalog item: identity, description, per-platform downloads keyed by
/// platform name, and media URLs. `machine_name` is the stable identifier,
/// unique within a feed snapshot.
#[derive(Clone, Debug)]
pub struct Product {
    pub background_image: Option<String>,
    pub background_color: Option<String>,
    pub carousel_content: CarouselContent,
    pub date_added: u32,
    pub description_text: String,
    pub downloads: Vec<(String, Download)>,
    pub human_name: String,
    pub humble_original: Option<bool>,
    pub image: String,
    pub logo: Option<String>,
    pub machine_name: String,
    pub marketing_blurb: Blurb,
    pub popularity: u16,
    pub publishers: Publishers,
    pub trove_showcase_css: Option<String>,
    pub youtube_link: Option<String>,
}

/// A whole catalog snapshot: the ordering hint for platforms, the newly
/// added subset, the page-level display data kept as raw text, and the
/// standard products merged from the fetched pages.
#[derive(Clone, Debug)]
pub struct Feed {
    pub all_access: Vec<String>,
    pub download_platform_order: Vec<String>,
    pub newly_added: Vec<Product>,
    pub display_item_data: String,
    pub countdown_timer_options: TimerOptions,
    pub standard_products: Vec<Product>,
}

} // verus!
