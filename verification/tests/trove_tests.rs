use tarnish::config;
use tarnish::trove::{
    move_results, move_unmoved, page_url, products_ready, sort_products_desc, trove_page_url,
    Game, Games, MoveJob, Trove,
};
use tarnish::trove_feed::{
    Blurb, CarouselContent, Download, Feed, Product, Publishers, TimerOptions, Url,
};
use tarnish::TroveError;

fn product(name: &str, date: u32, url: &str, image: &str) -> Product {
    Product {
        background_image: None,
        background_color: None,
        carousel_content: CarouselContent {
            youtube_link: None,
            thumbnail: vec![],
            screenshot: vec![],
        },
        date_added: date,
        description_text: format!("about {}", name),
        downloads: vec![(
            "windows".to_string(),
            Download {
                machine_name: format!("{}_download", name),
                name: "Download".to_string(),
                url: Url { web: url.to_string(), bittorrent: None },
                file_size: 64,
                md5: "d41d8cd98f00b204e9800998ecf8427e".to_string(),
                size: None,
            },
        )],
        human_name: name.to_string(),
        humble_original: None,
        image: image.to_string(),
        logo: None,
        machine_name: name.to_string(),
        marketing_blurb: Blurb::Text(String::new()),
        popularity: 1,
        publishers: Publishers::Absent,
        trove_showcase_css: None,
        youtube_link: None,
    }
}

fn empty_feed() -> Feed {
    Feed {
        all_access: vec![],
        download_platform_order: vec!["windows".to_string()],
        newly_added: vec![],
        display_item_data: "{}".to_string(),
        countdown_timer_options: TimerOptions {
            current_time: "0".to_string(),
            next_addition_time: "0".to_string(),
        },
        standard_products: vec![],
    }
}

fn config() -> config::Config {
    config::Config {
        trove: config::Trove { root: "/library".to_string() },
        system: config::System {
            downloads: "/staging".to_string(),
            cache: "/cachedir".to_string(),
        },
    }
}

fn two_entry_trove(root_files: &Vec<String>) -> Trove {
    let a = product("alpha", 10, "https://dl.example.com/games/alpha-setup.exe", "https://img.example.com/alpha.png");
    let b = product("beta", 20, "https://dl.example.com/games/beta-setup.exe", "https://img.example.com/beta.jpg");
    Trove::new(empty_feed(), vec![vec![a], vec![b]], &config(), root_files)
}

#[test]
fn scenario_one_installed_one_missing() {
    let root_files = vec!["alpha-setup.exe".to_string()];
    let t = two_entry_trove(&root_files);
    assert_eq!(t.total, 2);
    assert_eq!(t.number_downloaded, 1);
    let alpha = t.games.get("alpha").unwrap();
    assert!(alpha.downloaded);
    let beta = t.games.get("beta").unwrap();
    assert!(!beta.downloaded);
}

#[test]
fn update_download_status_is_idempotent() {
    let root_files = vec!["alpha-setup.exe".to_string()];
    let mut t = two_entry_trove(&root_files);
    t.update_download_status(&root_files);
    let flags: Vec<bool> = t.games.items.iter().map(|g| g.downloaded).collect();
    let counts = (t.number_downloaded, t.total);
    t.update_download_status(&root_files);
    let flags_again: Vec<bool> = t.games.items.iter().map(|g| g.downloaded).collect();
    assert_eq!(flags, flags_again);
    assert_eq!(counts, (t.number_downloaded, t.total));
}

#[test]
fn status_pass_rederives_after_external_delete() {
    let root_files = vec!["alpha-setup.exe".to_string()];
    let mut t = two_entry_trove(&root_files);
    assert_eq!(t.number_downloaded, 1);
    let emptied: Vec<String> = vec![];
    t.update_download_status(&emptied);
    assert_eq!(t.number_downloaded, 0);
    assert!(t.games.items.iter().all(|g| !g.downloaded));
}

#[test]
fn from_product_derives_installer_name() {
    let p = product("alpha", 10, "https://dl.example.com/games/alpha-setup.exe", "https://img.example.com/alpha.png");
    let g = Game::from_product(&p);
    assert_eq!(g.downloads, vec![("windows".to_string(), "alpha-setup.exe".to_string())]);
    assert_eq!(
        g.download_urls,
        vec![("windows".to_string(), "https://dl.example.com/games/alpha-setup.exe".to_string())]
    );
    assert!(!g.downloaded);
    assert!(!g.installed);
    assert_eq!(g.machine_name, "alpha");
}

#[test]
fn games_from_products_keeps_order_and_names() {
    let a = product("alpha", 10, "https://x/a.exe", "https://x/a.png");
    let b = product("beta", 20, "https://x/b.exe", "https://x/b.png");
    let gs = Games::from_products(&vec![a, b]);
    assert_eq!(gs.len(), 2);
    assert!(gs.get("alpha").is_some());
    assert!(gs.get("beta").is_some());
    assert!(gs.get("gamma").is_none());
}

#[test]
fn downloaded_and_not_downloaded_partition_the_set() {
    let root_files = vec!["alpha-setup.exe".to_string()];
    let t = two_entry_trove(&root_files);
    let down = t.downloaded();
    let up = t.not_downloaded();
    assert_eq!(down.len(), 1);
    assert_eq!(down[0].machine_name, "alpha");
    assert_eq!(up.len(), 1);
    assert_eq!(up[0].machine_name, "beta");
}

#[test]
fn stray_downloads_lists_matching_staging_files() {
    let t = two_entry_trove(&vec![]);
    let staging = vec![
        "beta-setup.exe".to_string(),
        "unrelated.tmp".to_string(),
    ];
    let strays = t.stray_downloads(&staging);
    assert_eq!(strays, vec!["/staging/beta-setup.exe".to_string()]);
}

#[test]
fn move_jobs_give_source_and_destination() {
    let t = two_entry_trove(&vec![]);
    let staging = vec!["alpha-setup.exe".to_string()];
    let jobs: Vec<MoveJob> = t.move_jobs(&staging);
    assert_eq!(jobs.len(), 1);
    assert_eq!(jobs[0].file, "alpha-setup.exe");
    assert_eq!(jobs[0].from, "/staging/alpha-setup.exe");
    assert_eq!(jobs[0].to, "/library/alpha-setup.exe");
}

#[test]
fn move_promotes_stray_to_root() {
    let mut root_files: Vec<String> = vec![];
    let mut staging = vec!["alpha-setup.exe".to_string()];
    let mut t = two_entry_trove(&root_files);
    let unmoved = t.move_downloads(&mut root_files, &mut staging);
    assert!(unmoved.is_empty());
    assert_eq!(root_files, vec!["alpha-setup.exe".to_string()]);
    assert!(staging.is_empty());
    t.update_download_status(&root_files);
    assert!(t.games.get("alpha").unwrap().downloaded);
}

#[test]
fn move_skips_and_reports_conflicts() {
    let mut root_files = vec!["alpha-setup.exe".to_string()];
    let mut staging = vec!["alpha-setup.exe".to_string()];
    let t = two_entry_trove(&root_files);
    let unmoved = t.move_downloads(&mut root_files, &mut staging);
    assert_eq!(unmoved, vec!["/staging/alpha-setup.exe".to_string()]);
    assert_eq!(staging, vec!["alpha-setup.exe".to_string()]);
    assert_eq!(root_files, vec!["alpha-setup.exe".to_string()]);
}

#[test]
fn move_results_reports_exactly_the_failed_jobs() {
    let t = two_entry_trove(&vec![]);
    let staging = vec!["alpha-setup.exe".to_string(), "beta-setup.exe".to_string()];
    let jobs = t.move_jobs(&staging);
    assert_eq!(jobs.len(), 2);
    // alpha hits a conflict at its destination; beta copies and deletes fine
    let outcomes = vec![(true, false, false), (false, true, true)];
    let unmoved = move_results(&jobs, &outcomes);
    assert_eq!(unmoved, vec!["/staging/alpha-setup.exe".to_string()]);
    // a failed copy and a failed delete each leave their stray reported
    let outcomes = vec![(false, false, false), (false, true, false)];
    let unmoved = move_results(&jobs, &outcomes);
    assert_eq!(
        unmoved,
        vec!["/staging/alpha-setup.exe".to_string(), "/staging/beta-setup.exe".to_string()]
    );
    assert!(!move_unmoved(false, true, true));
    assert!(move_unmoved(true, false, false));
}

#[test]
fn metadata_plan_covers_images_and_indexed_media() {
    let mut p = product("alpha", 10, "https://x/alpha.exe", "https://img.example.com/alpha.png?w=200");
    p.logo = Some("https://img.example.com/logo.svg".to_string());
    p.carousel_content.thumbnail = vec![
        "https://img.example.com/t0.jpg".to_string(),
        "https://img.example.com/t1.jpg".to_string(),
    ];
    p.carousel_content.screenshot = vec!["https://img.example.com/s0.webp".to_string()];
    let t = Trove::new(empty_feed(), vec![vec![p]], &config(), &vec![]);
    let tasks = t.cache_all_metadata().unwrap();
    let targets: Vec<String> = tasks.iter().map(|t| t.target.clone()).collect();
    assert_eq!(
        targets,
        vec![
            "/library/metadata/alpha.png".to_string(),
            "/library/metadata/alpha_logo.svg".to_string(),
            "/library/metadata/alpha_t0.jpg".to_string(),
            "/library/metadata/alpha_t1.jpg".to_string(),
            "/library/metadata/alpha_s0.webp".to_string(),
        ]
    );
    assert_eq!(tasks[0].url, "https://img.example.com/alpha.png?w=200");
}

#[test]
fn metadata_plan_skips_extensionless_image() {
    let p = product("alpha", 10, "https://x/alpha.exe", "https://img.example.com/noext");
    let t = Trove::new(empty_feed(), vec![vec![p]], &config(), &vec![]);
    let tasks = t.cache_all_metadata().unwrap();
    assert!(tasks.is_empty());
}

#[test]
fn metadata_plan_fails_on_extensionless_thumbnail() {
    let mut p = product("alpha", 10, "https://x/alpha.exe", "https://img.example.com/a.png");
    p.carousel_content.thumbnail = vec!["https://img.example.com/raw".to_string()];
    let t = Trove::new(empty_feed(), vec![vec![p]], &config(), &vec![]);
    assert_eq!(t.cache_all_metadata(), Err::<Vec<_>, _>(TroveError::MissingExtension));
}

#[test]
fn format_line_shows_date_name_and_flag() {
    let t = two_entry_trove(&vec![]);
    let g = t.games.get("alpha").unwrap();
    assert_eq!(t.format(g), "10 alpha false");
}

#[test]
fn new_sorts_snapshot_newest_first() {
    let t = two_entry_trove(&vec![]);
    let dates: Vec<u32> = t.feed.standard_products.iter().map(|p| p.date_added).collect();
    assert_eq!(dates, vec![20, 10]);
}

#[test]
fn sort_is_a_permutation() {
    let a = product("alpha", 5, "https://x/a.exe", "https://x/a.png");
    let b = product("beta", 30, "https://x/b.exe", "https://x/b.png");
    let c = product("gamma", 17, "https://x/c.exe", "https://x/c.png");
    let sorted = sort_products_desc(vec![a, b, c]);
    let names: Vec<&str> = sorted.iter().map(|p| p.machine_name.as_str()).collect();
    assert_eq!(names, vec!["beta", "gamma", "alpha"]);
}

#[test]
fn products_ready_rejects_missing_windows_download() {
    let mut p = product("alpha", 10, "https://x/a.exe", "https://x/a.png");
    p.downloads.clear();
    assert!(!products_ready(&vec![p]));
}

#[test]
fn products_ready_rejects_duplicate_names() {
    let a = product("alpha", 10, "https://x/a.exe", "https://x/a.png");
    let b = product("alpha", 20, "https://x/b.exe", "https://x/b.png");
    assert!(!products_ready(&vec![a, b]));
}

#[test]
fn products_ready_accepts_a_valid_snapshot() {
    let a = product("alpha", 10, "https://x/a.exe", "https://x/a.png");
    let b = product("beta", 20, "https://x/b.exe", "https://x/b.png");
    assert!(products_ready(&vec![a, b]));
}

#[test]
fn page_urls_carry_the_index() {
    assert_eq!(
        page_url(0),
        "https://www.humblebundle.com/api/v1/trove/chunk?index=0"
    );
    assert_eq!(
        page_url(4),
        "https://www.humblebundle.com/api/v1/trove/chunk?index=4"
    );
    assert_eq!(trove_page_url(), "https://www.humblebundle.com/monthly/trove");
}
