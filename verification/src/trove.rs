//! Reconciliation of the local install state against the catalog feed: which
//! entries are already downloaded, which downloads still sit in the staging
//! directory, and which media files the metadata store is missing.
//!
//! The layer owns the derived `downloaded` flags and the in-memory game set,
//! rebuilt fully on each pass. It decides; the surrounding program performs
//! the filesystem work and reports back what it found, so every rule here is
//! a function from plain values to plain values.

use crate::config::Config;
use crate::trove_feed::{Download, Feed, Product};
use crate::util::{
    assoc_get, assoc_lookup, contains_str, dec_str, file_name, file_name_spec, path_join,
    extension_spec, path_join_spec, seq_contains_string, u64_string, url_path_ext_spec,
};
use vstd::prelude::*;
use vstd::string::StringExecFns;
use vstd::string::StringSliceAdditionalSpecFns;
use select::document::Document;
use select::predicate::Attr;

verus! {

/// The one platform whose downloads this layer tracks.
pub open spec fn windows_platform() -> Seq<char> {
    "windows"@
}

/// One catalog entry as the reconciliation layer sees it: identity, the
/// per-platform download URLs and expected installer file names, media URLs,
/// and the derived local state.
#[derive(Clone, Debug)]
pub struct Game {
    pub machine_name: String,
    pub human_name: String,
    pub description: String,
    pub date_added: u32,
    pub downloaded: bool,
    pub installed: bool,
    pub executable: String,
    pub download_urls: Vec<(String, String)>,
    pub downloads: Vec<(String, String)>,
    pub logo: Option<String>,
    pub image: String,
    pub screenshots: Vec<String>,
    pub thumbnails: Vec<String>,
    pub trailer: Option<String>,
    pub last_seen_on: String,
    pub removed_from_trove: bool,
}

/// The expected installer file name of `g`: what its windows download URL's
/// path ends in.
pub open spec fn installer_name(g: Game) -> Option<Seq<char>> {
    match assoc_lookup(g.downloads@, windows_platform()) {
        None => None,
        Some(n) => Some(n@),
    }
}

/// A game this layer can reconcile: it has a windows installer name.
pub open spec fn game_wf(g: Game) -> bool {
    installer_name(g) is Some
}

/// The windows download descriptor of `p`, if the feed carries one.
pub open spec fn product_windows(p: Product) -> Option<Download> {
    assoc_lookup(p.downloads@, windows_platform())
}

/// A product this layer can adopt: it has a windows download whose URL ends
/// in a file name.
pub open spec fn product_wf(p: Product) -> bool {
    &&& product_windows(p) is Some
    &&& file_name_spec(product_windows(p)->0.url.web@) is Some
}

/// How a game mirrors the product it was built from: identity and media
/// copied, local state cleared, and the windows download mapped to its URL
/// and expected installer file name.
pub open spec fn game_matches_product(g: Game, p: Product) -> bool {
    &&& g.machine_name == p.machine_name
    &&& g.human_name == p.human_name
    &&& g.description == p.description_text
    &&& g.date_added == p.date_added
    &&& !g.downloaded
    &&& !g.installed
    &&& g.executable@ == Seq::<char>::empty()
    &&& g.download_urls@.len() == 1
    &&& g.download_urls@[0].0@ == windows_platform()
    &&& g.download_urls@[0].1 == product_windows(p)->0.url.web
    &&& g.downloads@.len() == 1
    &&& g.downloads@[0].0@ == windows_platform()
    &&& g.downloads@[0].1@ == file_name_spec(product_windows(p)->0.url.web@)->0
    &&& g.logo == p.logo
    &&& g.image == p.image
    &&& g.screenshots@ == p.carousel_content.screenshot@
    &&& g.thumbnails@ == p.carousel_content.thumbnail@
    &&& g.trailer == p.youtube_link
    &&& g.last_seen_on@ == Seq::<char>::empty()
    &&& !g.removed_from_trove
}

impl Game {
    /// The game a feed product maps to, before any reconciliation pass: not
    /// downloaded, not installed, and its expected installer name derived
    /// from the windows download URL's path tail.
    pub fn from_product(p: &Product) -> (g: Game)
        requires
            product_wf(*p),
        ensures
            game_matches_product(g, *p),
            game_wf(g),
    {
        let wd = assoc_get(&p.downloads, "windows").unwrap();
        let url = wd.url.web.clone();
        let installer = file_name(url.as_str()).unwrap();
        let mut download_urls: Vec<(String, String)> = Vec::new();
        download_urls.push((String::from_str("windows"), url));
        let mut downloads: Vec<(String, String)> = Vec::new();
        downloads.push((String::from_str("windows"), installer));
        let g = Game {
            machine_name: p.machine_name.clone(),
            human_name: p.human_name.clone(),
            description: p.description_text.clone(),
            date_added: p.date_added,
            downloaded: false,
            installed: false,
            executable: String::new(),
            download_urls,
            downloads,
            logo: p.logo.clone(),
            image: p.image.clone(),
            screenshots: p.carousel_content.screenshot.clone(),
            thumbnails: p.carousel_content.thumbnail.clone(),
            trailer: p.youtube_link.clone(),
            last_seen_on: String::new(),
            removed_from_trove: false,
        };
        g
    }
}

/// The in-memory game set, keyed by machine name: each entry is reconcilable
/// and no two entries share a name.
pub struct Games {
    pub items: Vec<Game>,
}

impl Games {
    /// Every game has an installer name, and machine names are unique.
    pub open spec fn wf(&self) -> bool {
        &&& forall|i: int| 0 <= i < self.items@.len() ==> game_wf(#[trigger] self.items@[i])
        &&& forall|i: int, j: int|
            0 <= i < j < self.items@.len() ==> self.items@[i].machine_name@
                != self.items@[j].machine_name@
    }

    /// How many games the set holds.
    pub fn len(&self) -> (n: usize)
        ensures
            n == self.items@.len(),
    {
        self.items.len()
    }

    /// The game stored under `name`, if any.
    pub fn get(&self, name: &str) -> (r: Option<&Game>)
        ensures
            r matches Some(g) ==> exists|i: int|
                0 <= i < self.items@.len() && self.items@[i] == *g && g.machine_name@ == name@,
            r is None ==> forall|i: int|
                0 <= i < self.items@.len() ==> (#[trigger] self.items@[i]).machine_name@ != name@,
    {
        let mut i: usize = 0;
        while i < self.items.len()
            invariant
                0 <= i <= self.items@.len(),
                forall|j: int| 0 <= j < i ==> (#[trigger] self.items@[j]).machine_name@ != name@,
            decreases self.items@.len() - i,
        {
            if crate::util::str_eq(self.items[i].machine_name.as_str(), name) {
                return Some(&self.items[i]);
            }
            i = i + 1;
        }
        None
    }

    /// The games a product list maps to, in order. Machine names are unique
    /// within a feed snapshot, so each product becomes one entry.
    pub fn from_products(products: &Vec<Product>) -> (gs: Games)
        requires
            forall|i: int| 0 <= i < products@.len() ==> product_wf(#[trigger] products@[i]),
            forall|i: int, j: int|
                0 <= i < j < products@.len() ==> products@[i].machine_name@
                    != products@[j].machine_name@,
        ensures
            gs.wf(),
            gs.items@.len() == products@.len(),
            forall|i: int|
                0 <= i < products@.len() ==> game_matches_product(
                    #[trigger] gs.items@[i],
                    products@[i],
                ),
    {
        let mut items: Vec<Game> = Vec::new();
        let mut i: usize = 0;
        while i < products.len()
            invariant
                0 <= i <= products@.len(),
                items@.len() == i,
                forall|k: int| 0 <= k < products@.len() ==> product_wf(#[trigger] products@[k]),
                forall|k: int|
                    0 <= k < i ==> game_matches_product(#[trigger] items@[k], products@[k]),
                forall|k: int| 0 <= k < i ==> game_wf(#[trigger] items@[k]),
            decreases products@.len() - i,
        {
            let g = Game::from_product(&products[i]);
            items.push(g);
            i = i + 1;
        }
        let gs = Games { items };
        proof {
            assert forall|a: int, b: int|
                0 <= a < b < gs.items@.len() implies gs.items@[a].machine_name@
                != gs.items@[b].machine_name@ by {
                assert(game_matches_product(gs.items@[a], products@[a]));
                assert(game_matches_product(gs.items@[b], products@[b]));
            }
        }
        gs
    }
}

/// Whether the directory listing `files` holds the installer `g` expects.
pub open spec fn installer_present(g: Game, files: Seq<String>) -> bool {
    match installer_name(g) {
        None => false,
        Some(n) => seq_contains_string(files, n),
    }
}

/// `g` with its derived flag set to `b` and everything else kept.
pub open spec fn set_downloaded(g: Game, b: bool) -> Game {
    Game { downloaded: b, ..g }
}

/// Every game's flag re-derived from the directory listing `files`.
pub open spec fn updated_games(gs: Seq<Game>, files: Seq<String>) -> Seq<Game> {
    gs.map(|i: int, g: Game| set_downloaded(g, installer_present(g, files)))
}

/// How many games carry the flag.
pub open spec fn count_flagged(gs: Seq<Game>) -> int
    decreases gs.len(),
{
    if gs.len() == 0 {
        0
    } else {
        count_flagged(gs.drop_last()) + if gs.last().downloaded {
            1int
        } else {
            0
        }
    }
}

/// A status pass is idempotent: with no change to the directory listing, a
/// second pass re-derives the same flags and the same count.
pub proof fn lemma_update_status_idempotent(gs: Seq<Game>, files: Seq<String>)
    ensures
        updated_games(updated_games(gs, files), files) == updated_games(gs, files),
        count_flagged(updated_games(updated_games(gs, files), files)) == count_flagged(
            updated_games(gs, files),
        ),
        updated_games(updated_games(gs, files), files).len() == updated_games(gs, files).len(),
{
    let once = updated_games(gs, files);
    assert forall|i: int| 0 <= i < once.len() implies updated_games(once, files)[i] == once[i] by {
        assert(installer_name(set_downloaded(gs[i], installer_present(gs[i], files)))
            == installer_name(gs[i]));
    }
    assert(updated_games(once, files) =~= once);
}

/// The local install state held against the feed: the three directories the
/// layer works with, the game set, and the derived counts of the last status
/// pass.
pub struct Trove {
    pub feed: Feed,
    pub cache: String,
    pub downloads: String,
    pub root: String,
    pub number_downloaded: u32,
    pub total: u32,
    pub games: Games,
}

impl Trove {
    /// The game set is reconcilable and small enough for the counters.
    pub open spec fn wf(&self) -> bool {
        &&& self.games.wf()
        &&& self.games.items@.len() <= u32::MAX
    }

    /// Everything but the games and the counters kept as it was.
    pub open spec fn same_dirs(&self, other: &Trove) -> bool {
        &&& self.feed == other.feed
        &&& self.cache == other.cache
        &&& self.downloads == other.downloads
        &&& self.root == other.root
    }

    /// Re-derives every `downloaded` flag from the canonical root's listing
    /// `root_files`, and the aggregate counts with them. The pass fully
    /// rebuilds the derived state, so it is always safe to repeat.
    pub fn update_download_status(&mut self, root_files: &Vec<String>)
        requires
            old(self).wf(),
        ensures
            final(self).wf(),
            final(self).games.items@ == updated_games(old(self).games.items@, root_files@),
            final(self).number_downloaded == count_flagged(final(self).games.items@),
            final(self).total == final(self).games.items@.len(),
            final(self).same_dirs(old(self)),
    {
        let mut items: Vec<Game> = Vec::new();
        core::mem::swap(&mut items, &mut self.games.items);
        let ghost orig = items@;
        let mut updated: Vec<Game> = Vec::new();
        let mut count: u32 = 0;
        while items.len() > 0
            invariant
                orig.len() <= u32::MAX,
                updated@.len() + items@.len() == orig.len(),
                forall|j: int| 0 <= j < items@.len() ==> items@[j] == orig[updated@.len() + j],
                forall|j: int| 0 <= j < orig.len() ==> game_wf(#[trigger] orig[j]),
                forall|j: int|
                    0 <= j < updated@.len() ==> #[trigger] updated@[j] == set_downloaded(
                        orig[j],
                        installer_present(orig[j], root_files@),
                    ),
                count == count_flagged(updated@),
                count <= updated@.len(),
            decreases items@.len(),
        {
            let ghost before = updated@;
            let g = items.remove(0);
            let name = assoc_get(&g.downloads, "windows").unwrap();
            let flag = contains_str(root_files, name.as_str());
            let g2 = Game { downloaded: flag, ..g };
            updated.push(g2);
            if flag {
                count = count + 1;
            }
            proof {
                assert(updated@.drop_last() =~= before);
            }
        }
        self.games.items = updated;
        self.number_downloaded = count;
        let n = self.games.items.len();
        self.total = n as u32;
        proof {
            assert(self.games.items@ =~= updated_games(orig, root_files@));
            assert forall|i: int| 0 <= i < self.games.items@.len() implies game_wf(
                #[trigger] self.games.items@[i],
            ) by {
                assert(installer_name(self.games.items@[i]) == installer_name(orig[i]));
            }
        }
    }

    /// The games whose flag equals `want`, in the set's order.
    fn flagged(&self, want: bool) -> (r: Vec<&Game>)
        ensures
            deref_games(r@) == flagged_games(self.games.items@, want),
    {
        let mut r: Vec<&Game> = Vec::new();
        let n = self.games.items.len();
        let mut i: usize = 0;
        while i < n
            invariant
                0 <= i <= n,
                n == self.games.items@.len(),
                deref_games(r@) == flagged_games(self.games.items@.take(i as int), want),
            decreases n - i,
        {
            let ghost prefix = self.games.items@.take(i as int);
            let ghost rs_before = r@;
            if self.games.items[i].downloaded == want {
                r.push(&self.games.items[i]);
            }
            proof {
                reveal_with_fuel(Seq::<_>::filter, 2);
                let longer = self.games.items@.take(i + 1);
                assert(longer.drop_last() =~= prefix);
                assert(longer.last() == self.games.items@[i as int]);
                if self.games.items@[i as int].downloaded == want {
                    assert(flagged_games(longer, want) =~= flagged_games(prefix, want).push(
                        longer.last(),
                    ));
                    assert(deref_games(r@) =~= deref_games(rs_before).push(
                        self.games.items@[i as int],
                    ));
                } else {
                    assert(flagged_games(longer, want) =~= flagged_games(prefix, want));
                    assert(deref_games(r@) =~= deref_games(rs_before));
                }
            }
            i = i + 1;
        }
        proof {
            assert(self.games.items@.take(n as int) =~= self.games.items@);
        }
        r
    }

    /// The entries whose installer is present in the canonical root, as of
    /// the last status pass.
    pub fn downloaded(&self) -> (r: Vec<&Game>)
        ensures
            deref_games(r@) == flagged_games(self.games.items@, true),
    {
        self.flagged(true)
    }

    /// The entries whose installer the canonical root is missing, as of the
    /// last status pass.
    pub fn not_downloaded(&self) -> (r: Vec<&Game>)
        ensures
            deref_games(r@) == flagged_games(self.games.items@, false),
    {
        self.flagged(false)
    }
}

/// A borrowed game list, seen as the games themselves.
pub open spec fn deref_games(rs: Seq<&Game>) -> Seq<Game> {
    rs.map_values(|g: &Game| *g)
}

/// The games whose flag equals `want`, kept in order.
pub open spec fn flagged_games(gs: Seq<Game>, want: bool) -> Seq<Game> {
    gs.filter(|g: Game| g.downloaded == want)
}

/// Whether no two strings of the listing hold the same characters, as the
/// names in one directory never do.
pub open spec fn unique_names(files: Seq<String>) -> bool {
    forall|i: int, j: int| 0 <= i < j < files.len() ==> files[i]@ != files[j]@
}

/// The strays of the staging listing: for each entry in order whose expected
/// installer sits in staging, that installer's full staging path.
pub open spec fn strays_of(gs: Seq<Game>, staging: Seq<String>, dir: Seq<char>) -> Seq<Seq<char>>
    decreases gs.len(),
{
    if gs.len() == 0 {
        Seq::empty()
    } else {
        let prev = strays_of(gs.drop_last(), staging, dir);
        if installer_present(gs.last(), staging) {
            prev.push(path_join_spec(dir, installer_name(gs.last())->0))
        } else {
            prev
        }
    }
}

/// One pending promotion: the installer's name, where it sits in staging,
/// and where the canonical root expects it.
pub struct MoveJob {
    pub file: String,
    pub from: String,
    pub to: String,
}

/// A `MoveJob`, seen at the spec level.
pub struct MoveJobView {
    pub file: Seq<char>,
    pub from: Seq<char>,
    pub to: Seq<char>,
}

impl View for MoveJob {
    type V = MoveJobView;

    open spec fn view(&self) -> MoveJobView {
        MoveJobView { file: self.file@, from: self.from@, to: self.to@ }
    }
}

/// A job list, seen at the spec level.
pub open spec fn jobs_view(js: Seq<MoveJob>) -> Seq<MoveJobView> {
    js.map_values(|j: MoveJob| j@)
}

/// The promotions a staging listing calls for, one per stray in order.
pub open spec fn move_jobs_of(
    gs: Seq<Game>,
    staging: Seq<String>,
    ddir: Seq<char>,
    rdir: Seq<char>,
) -> Seq<MoveJobView>
    decreases gs.len(),
{
    if gs.len() == 0 {
        Seq::empty()
    } else {
        let prev = move_jobs_of(gs.drop_last(), staging, ddir, rdir);
        if installer_present(gs.last(), staging) {
            let name = installer_name(gs.last())->0;
            prev.push(
                MoveJobView {
                    file: name,
                    from: path_join_spec(ddir, name),
                    to: path_join_spec(rdir, name),
                },
            )
        } else {
            prev
        }
    }
}

/// `s` with the first string holding exactly `name` taken out.
pub open spec fn remove_first_string(s: Seq<String>, name: Seq<char>) -> Seq<String>
    decreases s.len(),
{
    if s.len() == 0 {
        s
    } else if s[0]@ == name {
        s.drop_first()
    } else {
        seq![s[0]] + remove_first_string(s.drop_first(), name)
    }
}

/// Where a move pass leaves the two directories and which strays it reports
/// unmoved.
pub struct MovePass {
    pub root: Seq<String>,
    pub staging: Seq<String>,
    pub unmoved: Seq<Seq<char>>,
}

/// One move pass over the games in order. A stray whose destination name the
/// root already holds is skipped and reported unmoved, never overwritten;
/// any other stray moves: its name joins the root listing and leaves the
/// staging listing.
pub open spec fn move_pass(
    gs: Seq<Game>,
    root: Seq<String>,
    staging: Seq<String>,
    ddir: Seq<char>,
) -> MovePass
    decreases gs.len(),
{
    if gs.len() == 0 {
        MovePass { root, staging, unmoved: Seq::empty() }
    } else {
        let g = gs[0];
        let rest = gs.drop_first();
        if installer_present(g, staging) {
            let name = installer_name(g)->0;
            if seq_contains_string(root, name) {
                let m = move_pass(rest, root, staging, ddir);
                MovePass { unmoved: seq![path_join_spec(ddir, name)] + m.unmoved, ..m }
            } else {
                let held = assoc_lookup(g.downloads@, windows_platform())->0;
                move_pass(rest, root.push(held), remove_first_string(staging, name), ddir)
            }
        } else {
            move_pass(rest, root, staging, ddir)
        }
    }
}

/// Takes the first string equal to `name` out of `v`, if one is there.
fn remove_first_str(v: &mut Vec<String>, name: &str)
    ensures
        final(v)@ == remove_first_string(old(v)@, name@),
{
    let mut i: usize = 0;
    while i < v.len()
        invariant
            0 <= i <= v@.len(),
            v@ == old(v)@,
            forall|j: int| 0 <= j < i ==> v@[j]@ != name@,
        decreases v@.len() - i,
    {
        if crate::util::str_eq(v[i].as_str(), name) {
            v.remove(i);
            proof {
                lemma_remove_first_at(old(v)@, name@, i as int);
            }
            return ;
        }
        i = i + 1;
    }
    proof {
        lemma_remove_first_absent(v@, name@);
    }
}

proof fn lemma_remove_first_at(s: Seq<String>, name: Seq<char>, i: int)
    requires
        0 <= i < s.len(),
        s[i]@ == name,
        forall|j: int| 0 <= j < i ==> s[j]@ != name,
    ensures
        remove_first_string(s, name) == s.remove(i),
    decreases s.len(),
{
    if s[0]@ == name {
        assert(s.drop_first() =~= s.remove(0));
    } else {
        lemma_remove_first_at(s.drop_first(), name, i - 1);
        assert(seq![s[0]] + s.drop_first().remove(i - 1) =~= s.remove(i));
    }
}

proof fn lemma_remove_first_absent(s: Seq<String>, name: Seq<char>)
    requires
        forall|j: int| 0 <= j < s.len() ==> s[j]@ != name,
    ensures
        remove_first_string(s, name) == s,
    decreases s.len(),
{
    if s.len() > 0 {
        lemma_remove_first_absent(s.drop_first(), name);
        assert(seq![s[0]] + s.drop_first() =~= s);
    }
}

impl Trove {
    /// The full staging path of every stray download: a file in the staging
    /// directory whose name some entry expects as its installer, not yet
    /// promoted to the canonical root. `staging_files` is that directory's
    /// listing.
    pub fn stray_downloads(&self, staging_files: &Vec<String>) -> (r: Vec<String>)
        requires
            self.wf(),
        ensures
            r.deep_view() == strays_of(self.games.items@, staging_files@, self.downloads@),
    {
        let mut r: Vec<String> = Vec::new();
        let n = self.games.items.len();
        let mut i: usize = 0;
        while i < n
            invariant
                0 <= i <= n,
                n == self.games.items@.len(),
                self.wf(),
                r.deep_view() == strays_of(
                    self.games.items@.take(i as int),
                    staging_files@,
                    self.downloads@,
                ),
            decreases n - i,
        {
            let ghost prefix = self.games.items@.take(i as int);
            let ghost before = r.deep_view();
            let g = &self.games.items[i];
            let name = assoc_get(&g.downloads, "windows").unwrap();
            if contains_str(staging_files, name.as_str()) {
                r.push(path_join(self.downloads.as_str(), name.as_str()));
            }
            proof {
                let longer = self.games.items@.take(i + 1);
                assert(longer.drop_last() =~= prefix);
                assert(longer.last() == self.games.items@[i as int]);
                if installer_present(self.games.items@[i as int], staging_files@) {
                    assert(r.deep_view() =~= before.push(
                        path_join_spec(self.downloads@, name@),
                    ));
                } else {
                    assert(r.deep_view() =~= before);
                }
            }
            i = i + 1;
        }
        proof {
            assert(self.games.items@.take(n as int) =~= self.games.items@);
        }
        r
    }

    /// The promotions the staging listing calls for: for each stray, its
    /// name, its staging path, and its destination under the canonical root.
    pub fn move_jobs(&self, staging_files: &Vec<String>) -> (r: Vec<MoveJob>)
        requires
            self.wf(),
        ensures
            jobs_view(r@) == move_jobs_of(
                self.games.items@,
                staging_files@,
                self.downloads@,
                self.root@,
            ),
    {
        let mut r: Vec<MoveJob> = Vec::new();
        let n = self.games.items.len();
        let mut i: usize = 0;
        while i < n
            invariant
                0 <= i <= n,
                n == self.games.items@.len(),
                self.wf(),
                jobs_view(r@) == move_jobs_of(
                    self.games.items@.take(i as int),
                    staging_files@,
                    self.downloads@,
                    self.root@,
                ),
            decreases n - i,
        {
            let ghost prefix = self.games.items@.take(i as int);
            let ghost before = jobs_view(r@);
            let g = &self.games.items[i];
            let name = assoc_get(&g.downloads, "windows").unwrap();
            if contains_str(staging_files, name.as_str()) {
                let job = MoveJob {
                    file: name.clone(),
                    from: path_join(self.downloads.as_str(), name.as_str()),
                    to: path_join(self.root.as_str(), name.as_str()),
                };
                r.push(job);
            }
            proof {
                let longer = self.games.items@.take(i + 1);
                assert(longer.drop_last() =~= prefix);
                assert(longer.last() == self.games.items@[i as int]);
                if installer_present(self.games.items@[i as int], staging_files@) {
                    assert(jobs_view(r@) =~= before.push(
                        MoveJobView {
                            file: name@,
                            from: path_join_spec(self.downloads@, name@),
                            to: path_join_spec(self.root@, name@),
                        },
                    ));
                } else {
                    assert(jobs_view(r@) =~= before);
                }
            }
            i = i + 1;
        }
        proof {
            assert(self.games.items@.take(n as int) =~= self.games.items@);
        }
        r
    }

    /// One move pass against the two directory listings, for a run in which
    /// every copy and delete succeeds: each stray whose destination name the
    /// root lacks moves there and leaves staging; one whose destination name
    /// the root already holds is left in staging and reported unmoved, never
    /// overwritten. Returns the unmoved strays' staging paths.
    pub fn move_downloads(&self, root_files: &mut Vec<String>, staging_files: &mut Vec<String>)
        -> (unmoved: Vec<String>)
        requires
            self.wf(),
        ensures
            ({
                let m = move_pass(
                    self.games.items@,
                    old(root_files)@,
                    old(staging_files)@,
                    self.downloads@,
                );
                &&& final(root_files)@ == m.root
                &&& final(staging_files)@ == m.staging
                &&& unmoved.deep_view() == m.unmoved
            }),
    {
        let mut unmoved: Vec<String> = Vec::new();
        let n = self.games.items.len();
        let mut i: usize = 0;
        proof {
            assert(self.games.items@.skip(0) =~= self.games.items@);
            assert(unmoved.deep_view() =~= Seq::<Seq<char>>::empty());
            let rest = move_pass(
                self.games.items@,
                root_files@,
                staging_files@,
                self.downloads@,
            );
            assert(unmoved.deep_view() + rest.unmoved =~= rest.unmoved);
        }
        while i < n
            invariant
                0 <= i <= n,
                n == self.games.items@.len(),
                self.wf(),
                ({
                    let m = move_pass(
                        self.games.items@,
                        old(root_files)@,
                        old(staging_files)@,
                        self.downloads@,
                    );
                    let rest = move_pass(
                        self.games.items@.skip(i as int),
                        root_files@,
                        staging_files@,
                        self.downloads@,
                    );
                    &&& m.root == rest.root
                    &&& m.staging == rest.staging
                    &&& m.unmoved == unmoved.deep_view() + rest.unmoved
                }),
            decreases n - i,
        {
            let ghost suffix = self.games.items@.skip(i as int);
            let ghost unmoved_before = unmoved.deep_view();
            let ghost root_before = root_files@;
            let ghost staging_before = staging_files@;
            proof {
                assert(suffix.drop_first() =~= self.games.items@.skip(i + 1));
                assert(suffix[0] == self.games.items@[i as int]);
            }
            let g = &self.games.items[i];
            let name = assoc_get(&g.downloads, "windows").unwrap();
            if contains_str(staging_files, name.as_str()) {
                if contains_str(root_files, name.as_str()) {
                    unmoved.push(path_join(self.downloads.as_str(), name.as_str()));
                    proof {
                        assert(unmoved.deep_view() =~= unmoved_before.push(
                            path_join_spec(self.downloads@, name@),
                        ));
                        let rest = move_pass(
                            suffix.drop_first(),
                            root_before,
                            staging_before,
                            self.downloads@,
                        );
                        assert(unmoved_before + (seq![
                            path_join_spec(self.downloads@, name@),
                        ] + rest.unmoved) =~= unmoved.deep_view() + rest.unmoved);
                    }
                } else {
                    root_files.push(name.clone());
                    remove_first_str(staging_files, name.as_str());
                    proof {
                        assert(root_files@ =~= root_before.push(
                            assoc_lookup(
                                self.games.items@[i as int].downloads@,
                                windows_platform(),
                            )->0,
                        ));
                    }
                }
            }
            i = i + 1;
        }
        proof {
            assert(self.games.items@.skip(n as int) =~= Seq::<Game>::empty());
            let rest = move_pass(
                Seq::<Game>::empty(),
                root_files@,
                staging_files@,
                self.downloads@,
            );
            assert(unmoved.deep_view() + rest.unmoved =~= unmoved.deep_view());
        }
        unmoved
    }
}


proof fn lemma_contains_push(s: Seq<String>, x: String, n: Seq<char>)
    ensures
        seq_contains_string(s.push(x), n) == (seq_contains_string(s, n) || x@ == n),
{
    if seq_contains_string(s, n) {
        let i = choose|i: int| 0 <= i < s.len() && s[i]@ == n;
        assert(s.push(x)[i]@ == n);
    }
    if x@ == n {
        assert(s.push(x)[s.len() as int]@ == n);
    }
    if seq_contains_string(s.push(x), n) && x@ != n {
        let i = choose|i: int| 0 <= i < s.push(x).len() && s.push(x)[i]@ == n;
        assert(s[i]@ == n);
    }
}

proof fn lemma_contains_cons(x: String, t: Seq<String>, n: Seq<char>)
    ensures
        seq_contains_string(seq![x] + t, n) == (x@ == n || seq_contains_string(t, n)),
{
    let c = seq![x] + t;
    if x@ == n {
        assert(c[0]@ == n);
    }
    if seq_contains_string(t, n) {
        let i = choose|i: int| 0 <= i < t.len() && t[i]@ == n;
        assert(c[i + 1]@ == n);
    }
    if seq_contains_string(c, n) && x@ != n {
        let i = choose|i: int| 0 <= i < c.len() && c[i]@ == n;
        assert(t[i - 1]@ == n);
    }
}

proof fn lemma_remove_first_props(s: Seq<String>, name: Seq<char>)
    requires
        unique_names(s),
    ensures
        unique_names(remove_first_string(s, name)),
        !seq_contains_string(remove_first_string(s, name), name),
        forall|n: Seq<char>|
            n != name ==> seq_contains_string(remove_first_string(s, name), n)
                == seq_contains_string(s, n),
    decreases s.len(),
{
    let rf = remove_first_string(s, name);
    if s.len() == 0 {
        assert forall|n: Seq<char>| n != name implies seq_contains_string(rf, n)
            == seq_contains_string(s, n) by {}
    } else if s[0]@ == name {
        let d = s.drop_first();
        assert forall|i: int, j: int| 0 <= i < j < d.len() implies d[i]@ != d[j]@ by {
            assert(s[i + 1]@ == d[i]@ && s[j + 1]@ == d[j]@);
        }
        assert forall|i: int| 0 <= i < d.len() implies d[i]@ != name by {
            assert(s[i + 1]@ == d[i]@ && s[0]@ == name);
        }
        assert forall|n: Seq<char>| n != name implies seq_contains_string(rf, n)
            == seq_contains_string(s, n) by {
            if seq_contains_string(d, n) {
                let i = choose|i: int| 0 <= i < d.len() && d[i]@ == n;
                assert(s[i + 1]@ == n);
            }
            if seq_contains_string(s, n) {
                let i = choose|i: int| 0 <= i < s.len() && s[i]@ == n;
                assert(i > 0 && d[i - 1]@ == n);
            }
        }
    } else {
        let d = s.drop_first();
        assert forall|i: int, j: int| 0 <= i < j < d.len() implies d[i]@ != d[j]@ by {
            assert(s[i + 1]@ == d[i]@ && s[j + 1]@ == d[j]@);
        }
        lemma_remove_first_props(d, name);
        let rfd = remove_first_string(d, name);
        assert(rf =~= seq![s[0]] + rfd);
        // the head's name does not recur in the tail
        assert forall|i: int| 0 <= i < d.len() implies d[i]@ != s[0]@ by {
            assert(s[i + 1]@ == d[i]@);
        }
        assert(!seq_contains_string(d, s[0]@));
        lemma_contains_cons(s[0], rfd, s[0]@);
        assert(!seq_contains_string(rfd, s[0]@));
        assert forall|i: int, j: int| 0 <= i < j < rf.len() implies rf[i]@ != rf[j]@ by {
            if i == 0 {
                assert(rf[j]@ == rfd[j - 1]@);
                if rf[0]@ == rf[j]@ {
                    assert(seq_contains_string(rfd, s[0]@));
                }
            } else {
                assert(rf[i]@ == rfd[i - 1]@ && rf[j]@ == rfd[j - 1]@);
            }
        }
        lemma_contains_cons(s[0], rfd, name);
        assert forall|n: Seq<char>| n != name implies seq_contains_string(rf, n)
            == seq_contains_string(s, n) by {
            lemma_contains_cons(s[0], rfd, n);
            if seq_contains_string(d, n) {
                let i = choose|i: int| 0 <= i < d.len() && d[i]@ == n;
                assert(s[i + 1]@ == n);
            }
            if seq_contains_string(s, n) && s[0]@ != n {
                let i = choose|i: int| 0 <= i < s.len() && s[i]@ == n;
                assert(i > 0 && d[i - 1]@ == n);
            }
        }
    }
}

proof fn lemma_move_pass_root_grows(
    gs: Seq<Game>,
    root: Seq<String>,
    staging: Seq<String>,
    ddir: Seq<char>,
    n: Seq<char>,
)
    requires
        seq_contains_string(root, n),
    ensures
        seq_contains_string(move_pass(gs, root, staging, ddir).root, n),
    decreases gs.len(),
{
    if gs.len() > 0 {
        let g = gs[0];
        let rest = gs.drop_first();
        if installer_present(g, staging) {
            let name = installer_name(g)->0;
            if seq_contains_string(root, name) {
                lemma_move_pass_root_grows(rest, root, staging, ddir, n);
            } else {
                let held = assoc_lookup(g.downloads@, windows_platform())->0;
                lemma_contains_push(root, held, n);
                lemma_move_pass_root_grows(
                    rest,
                    root.push(held),
                    remove_first_string(staging, name),
                    ddir,
                    n,
                );
            }
        } else {
            lemma_move_pass_root_grows(rest, root, staging, ddir, n);
        }
    }
}

proof fn lemma_move_pass_staging(
    gs: Seq<Game>,
    root: Seq<String>,
    staging: Seq<String>,
    ddir: Seq<char>,
    n: Seq<char>,
)
    requires
        unique_names(staging),
    ensures
        unique_names(move_pass(gs, root, staging, ddir).staging),
        seq_contains_string(move_pass(gs, root, staging, ddir).staging, n)
            ==> seq_contains_string(staging, n),
        (seq_contains_string(staging, n) && seq_contains_string(root, n)) ==> seq_contains_string(
            move_pass(gs, root, staging, ddir).staging,
            n,
        ),
    decreases gs.len(),
{
    if gs.len() > 0 {
        let g = gs[0];
        let rest = gs.drop_first();
        if installer_present(g, staging) {
            let name = installer_name(g)->0;
            if seq_contains_string(root, name) {
                lemma_move_pass_staging(rest, root, staging, ddir, n);
            } else {
                let held = assoc_lookup(g.downloads@, windows_platform())->0;
                let root2 = root.push(held);
                let staging2 = remove_first_string(staging, name);
                lemma_remove_first_props(staging, name);
                lemma_contains_push(root, held, n);
                lemma_move_pass_staging(rest, root2, staging2, ddir, n);
            }
        } else {
            lemma_move_pass_staging(rest, root, staging, ddir, n);
        }
    }
}

proof fn lemma_move_pass_promotes_file(
    gs: Seq<Game>,
    root: Seq<String>,
    staging: Seq<String>,
    ddir: Seq<char>,
    name: Seq<char>,
)
    requires
        unique_names(staging),
        seq_contains_string(staging, name),
        !seq_contains_string(root, name),
        exists|k: int| 0 <= k < gs.len() && installer_name(gs[k]) == Some(name),
    ensures
        seq_contains_string(move_pass(gs, root, staging, ddir).root, name),
        !seq_contains_string(move_pass(gs, root, staging, ddir).staging, name),
    decreases gs.len(),
{
    let g = gs[0];
    let rest = gs.drop_first();
    if installer_name(g) == Some(name) {
        assert(installer_present(g, staging));
        let held = assoc_lookup(g.downloads@, windows_platform())->0;
        assert(held@ == name);
        let root2 = root.push(held);
        let staging2 = remove_first_string(staging, name);
        lemma_contains_push(root, held, name);
        lemma_remove_first_props(staging, name);
        lemma_move_pass_root_grows(rest, root2, staging2, ddir, name);
        lemma_move_pass_staging(rest, root2, staging2, ddir, name);
    } else {
        let k = choose|k: int| 0 <= k < gs.len() && installer_name(gs[k]) == Some(name);
        assert(k > 0);
        assert(rest[k - 1] == gs[k]);
        if installer_present(g, staging) {
            let gname = installer_name(g)->0;
            assert(gname != name);
            if seq_contains_string(root, gname) {
                lemma_move_pass_promotes_file(rest, root, staging, ddir, name);
            } else {
                let held = assoc_lookup(g.downloads@, windows_platform())->0;
                let root2 = root.push(held);
                let staging2 = remove_first_string(staging, gname);
                lemma_contains_push(root, held, name);
                lemma_remove_first_props(staging, gname);
                lemma_move_pass_promotes_file(rest, root2, staging2, ddir, name);
            }
        } else {
            lemma_move_pass_promotes_file(rest, root, staging, ddir, name);
        }
    }
}

proof fn lemma_move_pass_conflict_file(
    gs: Seq<Game>,
    root: Seq<String>,
    staging: Seq<String>,
    ddir: Seq<char>,
    name: Seq<char>,
)
    requires
        unique_names(staging),
        seq_contains_string(staging, name),
        seq_contains_string(root, name),
        exists|k: int| 0 <= k < gs.len() && installer_name(gs[k]) == Some(name),
    ensures
        seq_contains_string(move_pass(gs, root, staging, ddir).staging, name),
        move_pass(gs, root, staging, ddir).unmoved.contains(path_join_spec(ddir, name)),
    decreases gs.len(),
{
    let g = gs[0];
    let rest = gs.drop_first();
    let m = move_pass(gs, root, staging, ddir);
    if installer_name(g) == Some(name) {
        assert(installer_present(g, staging));
        let sub = move_pass(rest, root, staging, ddir);
        assert(m.unmoved[0] == path_join_spec(ddir, name));
        lemma_move_pass_staging(rest, root, staging, ddir, name);
    } else {
        let k = choose|k: int| 0 <= k < gs.len() && installer_name(gs[k]) == Some(name);
        assert(k > 0);
        assert(rest[k - 1] == gs[k]);
        if installer_present(g, staging) {
            let gname = installer_name(g)->0;
            assert(gname != name);
            if seq_contains_string(root, gname) {
                lemma_move_pass_conflict_file(rest, root, staging, ddir, name);
                let sub = move_pass(rest, root, staging, ddir);
                let j = choose|j: int|
                    0 <= j < sub.unmoved.len() && sub.unmoved[j] == path_join_spec(ddir, name);
                assert(m.unmoved[j + 1] == path_join_spec(ddir, name));
            } else {
                let held = assoc_lookup(g.downloads@, windows_platform())->0;
                let root2 = root.push(held);
                let staging2 = remove_first_string(staging, gname);
                lemma_contains_push(root, held, name);
                lemma_remove_first_props(staging, gname);
                lemma_move_pass_conflict_file(rest, root2, staging2, ddir, name);
            }
        } else {
            lemma_move_pass_conflict_file(rest, root, staging, ddir, name);
        }
    }
}

/// Move semantics: a stray file in staging, expected by entry `i` and absent
/// from the canonical root, is promoted by a move pass: it is present at the
/// root, gone from staging, and entry `i` counts as downloaded on the next
/// status pass over the new root listing.
pub proof fn lemma_move_promotes(
    gs: Seq<Game>,
    root: Seq<String>,
    staging: Seq<String>,
    ddir: Seq<char>,
    i: int,
)
    requires
        unique_names(staging),
        0 <= i < gs.len(),
        game_wf(gs[i]),
        installer_present(gs[i], staging),
        !installer_present(gs[i], root),
    ensures
        ({
            let m = move_pass(gs, root, staging, ddir);
            let name = installer_name(gs[i])->0;
            &&& seq_contains_string(m.root, name)
            &&& !seq_contains_string(m.staging, name)
            &&& updated_games(gs, m.root)[i].downloaded
        }),
{
    let name = installer_name(gs[i])->0;
    assert(installer_name(gs[i]) == Some(name));
    lemma_move_pass_promotes_file(gs, root, staging, ddir, name);
}

/// Conflict safety: when the canonical root already holds a file of the name
/// entry `i` expects, a move pass leaves the staging file untouched and
/// reports its staging path as unmoved, rather than overwriting.
pub proof fn lemma_move_conflict(
    gs: Seq<Game>,
    root: Seq<String>,
    staging: Seq<String>,
    ddir: Seq<char>,
    i: int,
)
    requires
        unique_names(staging),
        0 <= i < gs.len(),
        game_wf(gs[i]),
        installer_present(gs[i], staging),
        installer_present(gs[i], root),
    ensures
        ({
            let m = move_pass(gs, root, staging, ddir);
            let name = installer_name(gs[i])->0;
            &&& seq_contains_string(m.staging, name)
            &&& m.unmoved.contains(path_join_spec(ddir, name))
        }),
{
    let name = installer_name(gs[i])->0;
    assert(installer_name(gs[i]) == Some(name));
    lemma_move_pass_conflict_file(gs, root, staging, ddir, name);
}


/// `b` written as `true` or `false`.
pub open spec fn bool_str(b: bool) -> Seq<char> {
    if b {
        "true"@
    } else {
        "false"@
    }
}

/// One line about `g`: added-time, name and flag, space-separated.
pub open spec fn format_spec(g: Game) -> Seq<char> {
    dec_str(g.date_added as nat) + " "@ + g.human_name@ + " "@ + bool_str(g.downloaded)
}

/// Whether one move attempt leaves its stray unmoved: the destination
/// already existed (the conflict is skipped, never overwritten), the copy
/// failed, or the delete of the staging copy failed. The stray stays in
/// staging in every such case, because the delete only follows a successful
/// copy.
pub open spec fn unmoved_rule(dest_exists: bool, copy_ok: bool, remove_ok: bool) -> bool {
    dest_exists || !copy_ok || !remove_ok
}

/// Decides one move attempt, by `unmoved_rule`.
pub fn move_unmoved(dest_exists: bool, copy_ok: bool, remove_ok: bool) -> (r: bool)
    ensures
        r == unmoved_rule(dest_exists, copy_ok, remove_ok),
{
    dest_exists || !copy_ok || !remove_ok
}

/// The staging paths of the jobs whose attempt outcomes leave them unmoved,
/// in job order; each outcome is the attempt's `(dest_exists, copy_ok,
/// remove_ok)` triple.
pub open spec fn unmoved_after(jobs: Seq<MoveJob>, outcomes: Seq<(bool, bool, bool)>) -> Seq<
    Seq<char>,
>
    decreases jobs.len(),
{
    if jobs.len() == 0 {
        Seq::empty()
    } else {
        let prev = unmoved_after(jobs.drop_last(), outcomes.drop_last());
        let o = outcomes[jobs.len() - 1];
        if unmoved_rule(o.0, o.1, o.2) {
            prev.push(jobs.last()@.from)
        } else {
            prev
        }
    }
}

/// Assembles a whole move pass's report from the per-job outcomes the caller
/// observed: the unmoved list holds exactly the staging paths of the jobs
/// whose outcome `unmoved_rule` rejects. A pass never aborts early: every
/// job's outcome is taken in, whatever the earlier ones were.
pub fn move_results(jobs: &Vec<MoveJob>, outcomes: &Vec<(bool, bool, bool)>) -> (unmoved: Vec<
    String,
>)
    requires
        jobs@.len() == outcomes@.len(),
    ensures
        unmoved.deep_view() == unmoved_after(jobs@, outcomes@),
{
    let mut unmoved: Vec<String> = Vec::new();
    let n = jobs.len();
    let mut i: usize = 0;
    while i < n
        invariant
            0 <= i <= n,
            n == jobs@.len(),
            n == outcomes@.len(),
            unmoved.deep_view() == unmoved_after(jobs@.take(i as int), outcomes@.take(i as int)),
        decreases n - i,
    {
        let ghost before = unmoved.deep_view();
        let (dest_exists, copy_ok, remove_ok) = outcomes[i];
        if move_unmoved(dest_exists, copy_ok, remove_ok) {
            unmoved.push(jobs[i].from.clone());
        }
        proof {
            let jl = jobs@.take(i + 1);
            let ol = outcomes@.take(i + 1);
            assert(jl.drop_last() =~= jobs@.take(i as int));
            assert(ol.drop_last() =~= outcomes@.take(i as int));
            assert(jl.last() == jobs@[i as int]);
            assert(ol[jl.len() - 1] == outcomes@[i as int]);
            if unmoved_rule(outcomes@[i as int].0, outcomes@[i as int].1, outcomes@[i as int].2) {
                assert(unmoved.deep_view() =~= before.push(jobs@[i as int]@.from));
            }
        }
        i = i + 1;
    }
    proof {
        assert(jobs@.take(n as int) =~= jobs@);
        assert(outcomes@.take(n as int) =~= outcomes@);
    }
    unmoved
}

/// The image URL of every entry, in order.
pub open spec fn all_images(gs: Seq<Game>) -> Seq<Seq<char>> {
    gs.map_values(|g: Game| g.image@)
}

/// The thumbnail URLs of every entry, in order.
pub open spec fn all_thumbnails(gs: Seq<Game>) -> Seq<Seq<char>>
    decreases gs.len(),
{
    if gs.len() == 0 {
        Seq::empty()
    } else {
        all_thumbnails(gs.drop_last()) + gs.last().thumbnails.deep_view()
    }
}

/// The screenshot URLs of every entry, in order.
pub open spec fn all_screenshots(gs: Seq<Game>) -> Seq<Seq<char>>
    decreases gs.len(),
{
    if gs.len() == 0 {
        Seq::empty()
    } else {
        all_screenshots(gs.drop_last()) + gs.last().screenshots.deep_view()
    }
}

impl Trove {
    /// One line about `g`: added-time, name and whether it is downloaded.
    pub fn format(&self, g: &Game) -> (r: String)
        ensures
            r@ == format_spec(*g),
    {
        let mut s = u64_string(g.date_added as u64);
        s = s.concat(" ").concat(g.human_name.as_str()).concat(" ");
        if g.downloaded {
            s.concat("true")
        } else {
            s.concat("false")
        }
    }

    /// Every entry's image URL, for the caller to pull through the cache.
    pub fn image_urls(&self) -> (r: Vec<String>)
        ensures
            r.deep_view() == all_images(self.games.items@),
    {
        let mut r: Vec<String> = Vec::new();
        let n = self.games.items.len();
        let mut i: usize = 0;
        while i < n
            invariant
                0 <= i <= n,
                n == self.games.items@.len(),
                r.deep_view() == all_images(self.games.items@.take(i as int)),
            decreases n - i,
        {
            let ghost before = r.deep_view();
            r.push(self.games.items[i].image.clone());
            proof {
                assert(r.deep_view() =~= before.push(self.games.items@[i as int].image@));
                assert(all_images(self.games.items@.take(i + 1)) =~= before.push(
                    self.games.items@[i as int].image@,
                ));
            }
            i = i + 1;
        }
        proof {
            assert(self.games.items@.take(n as int) =~= self.games.items@);
        }
        r
    }

    /// Every entry's thumbnail URLs, flattened in entry order.
    pub fn thumbnail_urls(&self) -> (r: Vec<String>)
        ensures
            r.deep_view() == all_thumbnails(self.games.items@),
    {
        let mut r: Vec<String> = Vec::new();
        let n = self.games.items.len();
        let mut i: usize = 0;
        while i < n
            invariant
                0 <= i <= n,
                n == self.games.items@.len(),
                r.deep_view() == all_thumbnails(self.games.items@.take(i as int)),
            decreases n - i,
        {
            let g = &self.games.items[i];
            let m = g.thumbnails.len();
            let mut j: usize = 0;
            while j < m
                invariant
                    0 <= j <= m,
                    0 <= i < self.games.items@.len(),
                    g == &self.games.items@[i as int],
                    m == g.thumbnails@.len(),
                    r.deep_view() == all_thumbnails(self.games.items@.take(i as int))
                        + g.thumbnails.deep_view().take(j as int),
                decreases m - j,
            {
                let ghost before = r.deep_view();
                r.push(g.thumbnails[j].clone());
                proof {
                    assert(r.deep_view() =~= before.push(g.thumbnails@[j as int]@));
                    assert(g.thumbnails.deep_view().take(j + 1) =~= g.thumbnails.deep_view().take(
                        j as int,
                    ).push(g.thumbnails@[j as int]@));
                    assert(r.deep_view() =~= all_thumbnails(self.games.items@.take(i as int))
                        + g.thumbnails.deep_view().take(j + 1));
                }
                j = j + 1;
            }
            proof {
                let longer = self.games.items@.take(i + 1);
                assert(longer.drop_last() =~= self.games.items@.take(i as int));
                assert(longer.last() == self.games.items@[i as int]);
                assert(g.thumbnails.deep_view().take(m as int) =~= g.thumbnails.deep_view());
                assert(r.deep_view() =~= all_thumbnails(longer));
            }
            i = i + 1;
        }
        proof {
            assert(self.games.items@.take(n as int) =~= self.games.items@);
        }
        r
    }

    /// Every entry's screenshot URLs, flattened in entry order.
    pub fn screenshot_urls(&self) -> (r: Vec<String>)
        ensures
            r.deep_view() == all_screenshots(self.games.items@),
    {
        let mut r: Vec<String> = Vec::new();
        let n = self.games.items.len();
        let mut i: usize = 0;
        while i < n
            invariant
                0 <= i <= n,
                n == self.games.items@.len(),
                r.deep_view() == all_screenshots(self.games.items@.take(i as int)),
            decreases n - i,
        {
            let g = &self.games.items[i];
            let m = g.screenshots.len();
            let mut j: usize = 0;
            while j < m
                invariant
                    0 <= j <= m,
                    0 <= i < self.games.items@.len(),
                    g == &self.games.items@[i as int],
                    m == g.screenshots@.len(),
                    r.deep_view() == all_screenshots(self.games.items@.take(i as int))
                        + g.screenshots.deep_view().take(j as int),
                decreases m - j,
            {
                let ghost before = r.deep_view();
                r.push(g.screenshots[j].clone());
                proof {
                    assert(r.deep_view() =~= before.push(g.screenshots@[j as int]@));
                    assert(g.screenshots.deep_view().take(j + 1) =~= g.screenshots.deep_view().take(
                        j as int,
                    ).push(g.screenshots@[j as int]@));
                    assert(r.deep_view() =~= all_screenshots(self.games.items@.take(i as int))
                        + g.screenshots.deep_view().take(j + 1));
                }
                j = j + 1;
            }
            proof {
                let longer = self.games.items@.take(i + 1);
                assert(longer.drop_last() =~= self.games.items@.take(i as int));
                assert(longer.last() == self.games.items@[i as int]);
                assert(g.screenshots.deep_view().take(m as int) =~= g.screenshots.deep_view());
                assert(r.deep_view() =~= all_screenshots(longer));
            }
            i = i + 1;
        }
        proof {
            assert(self.games.items@.take(n as int) =~= self.games.items@);
        }
        r
    }
}


/// One pending media write: fetch `url` through the cache and persist the
/// bytes at `target`.
#[derive(Debug, PartialEq, Eq)]
pub struct MetadataTask {
    pub url: String,
    pub target: String,
}

/// A `MetadataTask`, seen at the spec level.
pub struct MetadataTaskView {
    pub url: Seq<char>,
    pub target: Seq<char>,
}

impl View for MetadataTask {
    type V = MetadataTaskView;

    open spec fn view(&self) -> MetadataTaskView {
        MetadataTaskView { url: self.url@, target: self.target@ }
    }
}

/// A task list, seen at the spec level.
pub open spec fn tasks_view(ts: Seq<MetadataTask>) -> Seq<MetadataTaskView> {
    ts.map_values(|t: MetadataTask| t@)
}

/// Where the media files live: the metadata directory under the root.
pub open spec fn metadata_dir(root: Seq<char>) -> Seq<char> {
    path_join_spec(root, "metadata"@)
}

/// The image write of `g`: an image URL without a resolvable extension is
/// skipped with a warning, not an error.
pub open spec fn image_tasks(g: Game, meta: Seq<char>) -> Seq<MetadataTaskView> {
    match url_path_ext_spec(g.image@) {
        None => Seq::empty(),
        Some(ext) => seq![
            MetadataTaskView {
                url: g.image@,
                target: path_join_spec(meta, g.machine_name@ + "."@ + ext),
            },
        ],
    }
}

/// The logo write of `g`: absent or extensionless logos are skipped.
pub open spec fn logo_tasks(g: Game, meta: Seq<char>) -> Seq<MetadataTaskView> {
    match g.logo {
        None => Seq::empty(),
        Some(l) => match url_path_ext_spec(l@) {
            None => Seq::empty(),
            Some(ext) => seq![
                MetadataTaskView {
                    url: l@,
                    target: path_join_spec(meta, g.machine_name@ + "_logo."@ + ext),
                },
            ],
        },
    }
}

/// The first `upto` thumbnail writes of `g`, the index written into the
/// file name.
pub open spec fn thumb_tasks(g: Game, meta: Seq<char>, upto: int) -> Seq<MetadataTaskView> {
    Seq::new(
        upto as nat,
        |j: int|
            MetadataTaskView {
                url: g.thumbnails@[j]@,
                target: path_join_spec(
                    meta,
                    g.machine_name@ + "_t"@ + dec_str(j as nat) + "."@ + extension_spec(
                        g.thumbnails@[j]@,
                    )->0,
                ),
            },
    )
}

/// The first `upto` screenshot writes of `g`.
pub open spec fn shot_tasks(g: Game, meta: Seq<char>, upto: int) -> Seq<MetadataTaskView> {
    Seq::new(
        upto as nat,
        |j: int|
            MetadataTaskView {
                url: g.screenshots@[j]@,
                target: path_join_spec(
                    meta,
                    g.machine_name@ + "_s"@ + dec_str(j as nat) + "."@ + extension_spec(
                        g.screenshots@[j]@,
                    )->0,
                ),
            },
    )
}

/// Whether every thumbnail and screenshot URL of `g` carries an extension;
/// for those a missing extension fails the whole call.
pub open spec fn game_media_ok(g: Game) -> bool {
    &&& forall|j: int|
        0 <= j < g.thumbnails@.len() ==> extension_spec(#[trigger] g.thumbnails@[j]@) is Some
    &&& forall|j: int|
        0 <= j < g.screenshots@.len() ==> extension_spec(#[trigger] g.screenshots@[j]@) is Some
}

/// Whether every entry's thumbnails and screenshots resolve an extension.
pub open spec fn media_ok(gs: Seq<Game>) -> bool {
    forall|i: int| 0 <= i < gs.len() ==> game_media_ok(#[trigger] gs[i])
}

/// All media writes of one entry, image first, then logo, thumbnails and
/// screenshots.
pub open spec fn game_tasks(g: Game, meta: Seq<char>) -> Seq<MetadataTaskView> {
    image_tasks(g, meta) + logo_tasks(g, meta) + thumb_tasks(g, meta, g.thumbnails@.len() as int)
        + shot_tasks(g, meta, g.screenshots@.len() as int)
}

/// All media writes of the whole set, in entry order.
pub open spec fn metadata_tasks_of(gs: Seq<Game>, meta: Seq<char>) -> Seq<MetadataTaskView>
    decreases gs.len(),
{
    if gs.len() == 0 {
        Seq::empty()
    } else {
        metadata_tasks_of(gs.drop_last(), meta) + game_tasks(gs.last(), meta)
    }
}

impl Trove {
    /// The media writes that bring the metadata directory up to date: for
    /// every entry, its image, logo, thumbnails and screenshots, each fetched
    /// by URL and persisted under a name derived from the entry. An image or
    /// logo URL without an extension is skipped; a thumbnail or screenshot
    /// URL without one fails the whole call, and the call fails exactly then.
    pub fn cache_all_metadata(&self) -> (r: Result<Vec<MetadataTask>, crate::TroveError>)
        ensures
            r matches Ok(ts) ==> media_ok(self.games.items@) && tasks_view(ts@)
                == metadata_tasks_of(self.games.items@, metadata_dir(self.root@)),
            r is Err ==> r == Err::<Vec<MetadataTask>, crate::TroveError>(
                crate::TroveError::MissingExtension,
            ) && !media_ok(self.games.items@),
    {
        let meta = path_join(self.root.as_str(), "metadata");
        let mut tasks: Vec<MetadataTask> = Vec::new();
        let n = self.games.items.len();
        let mut i: usize = 0;
        while i < n
            invariant
                0 <= i <= n,
                n == self.games.items@.len(),
                meta@ == metadata_dir(self.root@),
                tasks_view(tasks@) == metadata_tasks_of(self.games.items@.take(i as int), meta@),
                forall|k: int| 0 <= k < i ==> game_media_ok(#[trigger] self.games.items@[k]),
            decreases n - i,
        {
            let g = &self.games.items[i];
            let ghost base = tasks_view(tasks@);
            match crate::util::url_path_ext(g.image.as_str()) {
                None => {},
                Some(ext) => {
                    let name = g.machine_name.clone().concat(".").concat(ext.as_str());
                    let task = MetadataTask {
                        url: g.image.clone(),
                        target: path_join(meta.as_str(), name.as_str()),
                    };
                    tasks.push(task);
                },
            }
            proof {
                assert(tasks_view(tasks@) =~= base + image_tasks(
                    self.games.items@[i as int],
                    meta@,
                ));
            }
            let ghost with_image = tasks_view(tasks@);
            match &g.logo {
                None => {},
                Some(l) => {
                    match crate::util::url_path_ext(l.as_str()) {
                        None => {},
                        Some(ext) => {
                            let name = g.machine_name.clone().concat("_logo.").concat(
                                ext.as_str(),
                            );
                            let task = MetadataTask {
                                url: l.clone(),
                                target: path_join(meta.as_str(), name.as_str()),
                            };
                            tasks.push(task);
                        },
                    }
                },
            }
            proof {
                assert(tasks_view(tasks@) =~= with_image + logo_tasks(
                    self.games.items@[i as int],
                    meta@,
                ));
            }
            let ghost with_logo = tasks_view(tasks@);
            let m = g.thumbnails.len();
            let mut j: usize = 0;
            while j < m
                invariant
                    0 <= j <= m,
                    0 <= i < self.games.items@.len(),
                    g == &self.games.items@[i as int],
                    m == g.thumbnails@.len(),
                    meta@ == metadata_dir(self.root@),
                    tasks_view(tasks@) == with_logo + thumb_tasks(
                        self.games.items@[i as int],
                        meta@,
                        j as int,
                    ),
                    forall|jj: int|
                        0 <= jj < j ==> extension_spec(#[trigger] g.thumbnails@[jj]@) is Some,
                decreases m - j,
            {
                match crate::util::extension(g.thumbnails[j].as_str()) {
                    None => {
                        proof {
                            assert(!game_media_ok(self.games.items@[i as int]));
                            assert(media_ok(self.games.items@) ==> game_media_ok(
                                self.games.items@[i as int],
                            ));
                        }
                        return Err(crate::TroveError::MissingExtension);
                    },
                    Some(ext) => {
                        let ghost before = tasks_view(tasks@);
                        let idx = u64_string(j as u64);
                        let name = g.machine_name.clone().concat("_t").concat(idx.as_str()).concat(
                            ".",
                        ).concat(ext.as_str());
                        let task = MetadataTask {
                            url: g.thumbnails[j].clone(),
                            target: path_join(meta.as_str(), name.as_str()),
                        };
                        let ghost t = task@;
                        tasks.push(task);
                        proof {
                            let gg = self.games.items@[i as int];
                            assert(t.target =~= path_join_spec(
                                meta@,
                                gg.machine_name@ + "_t"@ + dec_str(j as nat) + "."@
                                    + extension_spec(gg.thumbnails@[j as int]@)->0,
                            ));
                            assert(t == thumb_tasks(gg, meta@, j + 1)[j as int]);
                            assert(thumb_tasks(gg, meta@, j + 1) =~= thumb_tasks(
                                gg,
                                meta@,
                                j as int,
                            ).push(t));
                            assert(tasks_view(tasks@) =~= before.push(t));
                            assert(tasks_view(tasks@) =~= with_logo + thumb_tasks(
                                gg,
                                meta@,
                                j + 1,
                            ));
                        }
                    },
                }
                j = j + 1;
            }
            let ghost with_thumbs = tasks_view(tasks@);
            let m2 = g.screenshots.len();
            let mut j2: usize = 0;
            while j2 < m2
                invariant
                    0 <= j2 <= m2,
                    0 <= i < self.games.items@.len(),
                    g == &self.games.items@[i as int],
                    m2 == g.screenshots@.len(),
                    meta@ == metadata_dir(self.root@),
                    tasks_view(tasks@) == with_thumbs + shot_tasks(
                        self.games.items@[i as int],
                        meta@,
                        j2 as int,
                    ),
                    forall|jj: int|
                        0 <= jj < j2 ==> extension_spec(#[trigger] g.screenshots@[jj]@) is Some,
                decreases m2 - j2,
            {
                match crate::util::extension(g.screenshots[j2].as_str()) {
                    None => {
                        proof {
                            assert(!game_media_ok(self.games.items@[i as int]));
                            assert(media_ok(self.games.items@) ==> game_media_ok(
                                self.games.items@[i as int],
                            ));
                        }
                        return Err(crate::TroveError::MissingExtension);
                    },
                    Some(ext) => {
                        let idx = u64_string(j2 as u64);
                        let name = g.machine_name.clone().concat("_s").concat(idx.as_str()).concat(
                            ".",
                        ).concat(ext.as_str());
                        let task = MetadataTask {
                            url: g.screenshots[j2].clone(),
                            target: path_join(meta.as_str(), name.as_str()),
                        };
                        let ghost t = task@;
                        let ghost before2 = tasks_view(tasks@);
                        tasks.push(task);
                        proof {
                            let gg = self.games.items@[i as int];
                            assert(t.target =~= path_join_spec(
                                meta@,
                                gg.machine_name@ + "_s"@ + dec_str(j2 as nat) + "."@
                                    + extension_spec(gg.screenshots@[j2 as int]@)->0,
                            ));
                            assert(t == shot_tasks(gg, meta@, j2 + 1)[j2 as int]);
                            assert(shot_tasks(gg, meta@, j2 + 1) =~= shot_tasks(
                                gg,
                                meta@,
                                j2 as int,
                            ).push(t));
                            assert(tasks_view(tasks@) =~= before2.push(t));
                            assert(tasks_view(tasks@) =~= with_thumbs + shot_tasks(
                                gg,
                                meta@,
                                j2 + 1,
                            ));
                        }
                    },
                }
                j2 = j2 + 1;
            }
            proof {
                let longer = self.games.items@.take(i + 1);
                assert(longer.drop_last() =~= self.games.items@.take(i as int));
                assert(longer.last() == self.games.items@[i as int]);
                assert(tasks_view(tasks@) =~= metadata_tasks_of(longer, meta@));
            }
            i = i + 1;
        }
        proof {
            assert(self.games.items@.take(n as int) =~= self.games.items@);
        }
        Ok(tasks)
    }
}


/// The catalog page whose markup embeds the feed payload.
pub fn trove_page_url() -> (r: String)
    ensures
        r@ == "https://www.humblebundle.com/monthly/trove"@,
{
    String::from_str("https://www.humblebundle.com/monthly/trove")
}

/// How many fixed feed pages a snapshot is fetched from.
pub const PAGE_COUNT: u8 = 5;

/// The URL of feed page `index`.
pub open spec fn page_url_spec(index: nat) -> Seq<char> {
    "https://www.humblebundle.com/api/v1/trove/chunk?index="@ + dec_str(index)
}

/// The URL feed page `index` is fetched from.
pub fn page_url(index: u8) -> (r: String)
    ensures
        r@ == page_url_spec(index as nat),
{
    let base = String::from_str("https://www.humblebundle.com/api/v1/trove/chunk?index=");
    let idx = u64_string(index as u64);
    base.concat(idx.as_str())
}

/// The text of the first element whose `id` attribute is `id`, if the
/// document has one; a function of the two strings alone.
pub uninterp spec fn element_text_of(html: Seq<char>, id: Seq<char>) -> Option<Seq<char>>;

/// Relies on select's `Document`: parses the HTML and yields the text
/// content of the first element whose `id` attribute equals `id`. The
/// document's backing buffer stores its length in 32 bits and aborts on
/// more, so the markup must stay under 4 GiB of UTF-8.
#[verifier::external_body]
fn find_element_text(html: &str, id: &str) -> (r: Option<String>)
    requires
        html.spec_bytes().len() < 4294967296,
    ensures
        r is Some <==> element_text_of(html@, id@) is Some,
        r matches Some(t) ==> element_text_of(html@, id@) == Some(t@),
{
    Document::from(html).find(Attr("id", id)).next().map(|node| node.text())
}

/// The id of the element the catalog page embeds its feed payload in.
pub open spec fn feed_data_id() -> Seq<char> {
    "webpack-monthly-trove-data"@
}

/// The embedded feed payload of the catalog page: the text of the uniquely
/// identified element carrying it, or nothing when the markup lacks it.
/// The page must stay under 4 GiB of UTF-8: the HTML parser's buffers stop
/// there, so the caller checks the length first.
pub fn embedded_feed_data(html: &str) -> (r: Option<String>)
    requires
        html.spec_bytes().len() < 4294967296,
    ensures
        r is Some <==> element_text_of(html@, feed_data_id()) is Some,
        r matches Some(t) ==> element_text_of(html@, feed_data_id()) == Some(t@),
{
    find_element_text(html, "webpack-monthly-trove-data")
}

/// The fetched pages, one after another in page order.
pub open spec fn pages_concat(pages: Seq<Vec<Product>>) -> Seq<Product>
    decreases pages.len(),
{
    if pages.len() == 0 {
        Seq::empty()
    } else {
        pages_concat(pages.drop_last()) + pages.last()@
    }
}

/// Joins the fetched pages into one product list, in page order.
pub fn concat_pages(pages: Vec<Vec<Product>>) -> (r: Vec<Product>)
    ensures
        r@ == pages_concat(pages@),
{
    let ghost all = pages@;
    let mut pages = pages;
    let mut r: Vec<Product> = Vec::new();
    let ghost i: int = 0;
    while pages.len() > 0
        invariant
            0 <= i <= all.len(),
            pages@ == all.skip(i),
            r@ == pages_concat(all.take(i)),
        decreases pages@.len(),
    {
        let mut page = pages.remove(0);
        r.append(&mut page);
        proof {
            assert(all.skip(i)[0] == all[i]);
            assert(all.skip(i).remove(0) =~= all.skip(i + 1));
            assert(all.take(i + 1).drop_last() =~= all.take(i));
            assert(all.take(i + 1).last() == all[i]);
            i = i + 1;
        }
    }
    proof {
        assert(all.take(i) =~= all);
    }
    r
}


/// Sorted by added-time, newest first.
pub open spec fn sorted_desc(ps: Seq<Product>) -> bool {
    forall|i: int, j: int| 0 <= i < j < ps.len() ==> ps[i].date_added >= ps[j].date_added
}

/// Orders the products by added-time, newest first. The result holds exactly
/// the given products; the order among equal times is not pinned down.
pub fn sort_products_desc(products: Vec<Product>) -> (r: Vec<Product>)
    ensures
        sorted_desc(r@),
        r@.to_multiset() == products@.to_multiset(),
{
    broadcast use vstd::seq_lib::group_to_multiset_ensures;
    broadcast use vstd::multiset::group_multiset_axioms;

    let mut rest = products;
    let ghost whole = rest@.to_multiset();
    let mut r: Vec<Product> = Vec::new();
    proof {
        assert(r@.to_multiset().add(rest@.to_multiset()) =~= whole);
    }
    while rest.len() > 0
        invariant
            r@.to_multiset().add(rest@.to_multiset()) == whole,
            whole == products@.to_multiset(),
            sorted_desc(r@),
            forall|a: int, b: int|
                0 <= a < r@.len() && 0 <= b < rest@.len() ==> r@[a].date_added
                    >= rest@[b].date_added,
        decreases rest@.len(),
    {
        let mut maxi: usize = 0;
        let mut k: usize = 1;
        while k < rest.len()
            invariant
                rest@.len() > 0,
                0 <= maxi < rest@.len(),
                1 <= k <= rest@.len(),
                forall|t: int| 0 <= t < k ==> rest@[t].date_added <= rest@[maxi as int].date_added,
            decreases rest@.len() - k,
        {
            if rest[k].date_added > rest[maxi].date_added {
                maxi = k;
            }
            k = k + 1;
        }
        let ghost rest_before = rest@;
        let ghost r_before = r@;
        let x = rest.remove(maxi);
        r.push(x);
        proof {
            assert(rest_before.contains(rest_before[maxi as int]));
            rest_before.to_multiset_ensures();
            assert(rest@ == rest_before.remove(maxi as int));
            assert(rest@.to_multiset() =~= rest_before.to_multiset().remove(
                rest_before[maxi as int],
            ));
            r_before.to_multiset_ensures();
            assert(r@ == r_before.push(x));
            assert(r@.to_multiset() =~= r_before.to_multiset().insert(x));
            assert(r@.to_multiset().add(rest@.to_multiset()) =~= whole);
            assert forall|a: int, b: int|
                0 <= a < r@.len() && 0 <= b < rest@.len() implies r@[a].date_added
                >= rest@[b].date_added by {
                if b < maxi {
                    assert(rest@[b] == rest_before[b]);
                } else {
                    assert(rest@[b] == rest_before[b + 1]);
                }
            }
        }
    }
    r
}

/// Whether a product list is ready to become the game set: every product
/// carries a windows download whose URL ends in a file name, and machine
/// names are unique within the snapshot.
pub open spec fn products_ready_spec(ps: Seq<Product>) -> bool {
    &&& forall|i: int| 0 <= i < ps.len() ==> product_wf(#[trigger] ps[i])
    &&& forall|i: int, j: int|
        0 <= i < j < ps.len() ==> ps[i].machine_name@ != ps[j].machine_name@
}

/// Checks that a product list is ready to become the game set; what the
/// feed's own rules promise, tested rather than assumed.
pub fn products_ready(products: &Vec<Product>) -> (r: bool)
    ensures
        r == products_ready_spec(products@),
{
    let n = products.len();
    let mut i: usize = 0;
    while i < n
        invariant
            0 <= i <= n,
            n == products@.len(),
            forall|k: int| 0 <= k < i ==> product_wf(#[trigger] products@[k]),
            forall|a: int, b: int|
                0 <= a < b < i ==> products@[a].machine_name@ != products@[b].machine_name@,
        decreases n - i,
    {
        match assoc_get(&products[i].downloads, "windows") {
            None => {
                return false;
            },
            Some(d) => {
                match file_name(d.url.web.as_str()) {
                    None => {
                        return false;
                    },
                    Some(_) => {},
                }
            },
        }
        let mut j: usize = 0;
        while j < i
            invariant
                0 <= j <= i < products@.len(),
                forall|t: int|
                    0 <= t < j ==> products@[t].machine_name@ != products@[i as int].machine_name@,
            decreases i - j,
        {
            if crate::util::str_eq(
                products[j].machine_name.as_str(),
                products[i].machine_name.as_str(),
            ) {
                return false;
            }
            j = j + 1;
        }
        i = i + 1;
    }
    true
}

impl Trove {
    /// Builds the state from the parsed feed, the fetched pages and the
    /// configured directories, then runs the first status pass against the
    /// canonical root's listing: the pages are joined in page order, the
    /// snapshot is sorted newest first, every entry's flag is derived, and
    /// the counts with it.
    pub fn new(
        feed: Feed,
        pages: Vec<Vec<Product>>,
        config: &Config,
        root_files: &Vec<String>,
    ) -> (t: Trove)
        requires
            products_ready_spec(pages_concat(pages@)),
            pages_concat(pages@).len() <= u32::MAX,
        ensures
            t.wf(),
            t.root == config.trove.root,
            t.downloads == config.system.downloads,
            t.cache == config.system.cache,
            t.games.items@.len() == pages_concat(pages@).len(),
            forall|i: int|
                0 <= i < t.games.items@.len() ==> game_matches_product(
                    set_downloaded(#[trigger] t.games.items@[i], false),
                    pages_concat(pages@)[i],
                ),
            forall|i: int|
                0 <= i < t.games.items@.len() ==> (#[trigger] t.games.items@[i]).downloaded
                    == installer_present(t.games.items@[i], root_files@),
            t.number_downloaded == count_flagged(t.games.items@),
            t.total == t.games.items@.len(),
            sorted_desc(t.feed.standard_products@),
            t.feed.standard_products@.to_multiset() == pages_concat(pages@).to_multiset(),
            t.feed.all_access == feed.all_access,
            t.feed.download_platform_order == feed.download_platform_order,
            t.feed.newly_added == feed.newly_added,
            t.feed.display_item_data == feed.display_item_data,
            t.feed.countdown_timer_options == feed.countdown_timer_options,
    {
        let ghost all = pages_concat(pages@);
        let products = concat_pages(pages);
        let games = Games::from_products(&products);
        let ghost built = games.items@;
        let sorted = sort_products_desc(products);
        let feed2 = Feed { standard_products: sorted, ..feed };
        let mut t = Trove {
            feed: feed2,
            cache: config.system.cache.clone(),
            downloads: config.system.downloads.clone(),
            root: config.trove.root.clone(),
            number_downloaded: 0,
            total: 0,
            games,
        };
        t.update_download_status(root_files);
        proof {
            assert forall|i: int| 0 <= i < t.games.items@.len() implies game_matches_product(
                set_downloaded(#[trigger] t.games.items@[i], false),
                all[i],
            ) && t.games.items@[i].downloaded == installer_present(
                t.games.items@[i],
                root_files@,
            ) by {
                assert(t.games.items@[i] == set_downloaded(
                    built[i],
                    installer_present(built[i], root_files@),
                ));
                assert(game_matches_product(built[i], all[i]));
                assert(set_downloaded(built[i], false) == built[i]);
                assert(installer_name(t.games.items@[i]) == installer_name(built[i]));
            }
        }
        t
    }
}

} // verus!
