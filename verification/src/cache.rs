//! Content-addressed cache of fetched pages. A key (a URL) is fingerprinted
//! to a fixed-length hex digest; the payload lives at `root/<digest>` and a
//! sidecar at `root/<digest>.url` records the original key. `retrieve` is a
//! get-or-populate protocol: on a hit the payload file is read back, on a
//! miss the key is fetched over the network and both artifacts are persisted
//! before the payload is returned.
//!
//! The cache decides; the caller performs the filesystem and network work.
//! Each decision step states exactly which action follows which event, and
//! the spec-level model below states what a whole retrieval does to the
//! store, so that idempotence and persistence are proved once and for all.

use crate::util::{path_join, path_join_spec};
use crate::TroveError;
use vstd::prelude::*;
use vstd::string::StringExecFns;
use vstd::string::StrSliceExecFns;
use vstd::utf8::encode_utf8;

verus! {

/// The digest a key fingerprints to. It depends on the key's characters
/// alone, so identical keys always resolve to the same storage location.
pub uninterp spec fn fingerprint_of(key: Seq<char>) -> Seq<char>;

/// Whether `c` is a lowercase hexadecimal digit.
pub open spec fn is_lower_hex(c: char) -> bool {
    ('0' <= c && c <= '9') || ('a' <= c && c <= 'f')
}

/// Relies on sha2's `Sha256` (a 32-byte digest of the input bytes, a function
/// of those bytes alone) and on `hex::encode` (two lowercase hex digits per
/// byte).
#[verifier::external_body]
fn sha256_hex(key: &str) -> (r: String)
    ensures
        r@ == fingerprint_of(key@),
        r@.len() == 64,
        forall|i: int| 0 <= i < r@.len() ==> is_lower_hex(#[trigger] r@[i]),
{
    hex::encode(<sha2::Sha256 as sha2::Digest>::digest(key.as_bytes()))
}

/// The fingerprint of a key: a fixed-length lowercase-hex digest, usable as a
/// filesystem-safe path segment, and a pure function of the key.
pub fn fingerprint(key: &str) -> (r: String)
    ensures
        r@ == fingerprint_of(key@),
        r@.len() == 64,
        forall|i: int| 0 <= i < r@.len() ==> is_lower_hex(#[trigger] r@[i]),
{
    sha256_hex(key)
}

/// Identical keys have identical fingerprints: the digest is a function of
/// the key, so it is stable across calls and across processes.
pub proof fn lemma_fingerprint_deterministic(k1: Seq<char>, k2: Seq<char>)
    requires
        k1 == k2,
    ensures
        fingerprint_of(k1) == fingerprint_of(k2),
{
}

/// Where the payload for `key` lives under `root`.
pub open spec fn payload_path_of(root: Seq<char>, key: Seq<char>) -> Seq<char> {
    path_join_spec(root, fingerprint_of(key))
}

/// Where the sidecar recording the original key lives under `root`.
pub open spec fn sidecar_path_of(root: Seq<char>, key: Seq<char>) -> Seq<char> {
    payload_path_of(root, key) + seq!['.', 'u', 'r', 'l']
}

/// A content-addressed store rooted at one directory. The store owns that
/// directory exclusively; entries are only ever created, never mutated.
pub struct Cache {
    pub root: String,
}

/// The filesystem and network a retrieval acts in: file contents by path,
/// and what a fetch of the key would return (`None` is a transport failure,
/// `(false, _)` a non-success status, `(true, body)` a success).
pub struct CacheWorld {
    pub fs: Map<Seq<char>, Seq<u8>>,
    pub net: Option<(bool, Seq<u8>)>,
}

/// What `retrieve` returns against `w`, when every write succeeds.
pub open spec fn retrieve_result(root: Seq<char>, w: CacheWorld, key: Seq<char>) -> Result<
    Seq<u8>,
    TroveError,
> {
    let p = payload_path_of(root, key);
    if w.fs.contains_key(p) {
        Ok(w.fs[p])
    } else {
        match w.net {
            None => Err(TroveError::Network),
            Some((false, _)) => Err(TroveError::HttpStatus),
            Some((true, body)) => Ok(body),
        }
    }
}

/// The store after `retrieve` against `w`, when every write succeeds: on a
/// miss that fetched successfully, both artifacts exist; otherwise nothing
/// changed.
pub open spec fn retrieve_fs_after(root: Seq<char>, w: CacheWorld, key: Seq<char>) -> Map<
    Seq<char>,
    Seq<u8>,
> {
    let p = payload_path_of(root, key);
    if w.fs.contains_key(p) {
        w.fs
    } else {
        match w.net {
            Some((true, body)) => w.fs.insert(sidecar_path_of(root, key), encode_utf8(key)).insert(
                p,
                body,
            ),
            _ => w.fs,
        }
    }
}

/// Whether `retrieve` against `w` reaches for the network at all: only on a
/// miss. The payload file is the one and only hit criterion.
pub open spec fn retrieve_fetches(root: Seq<char>, w: CacheWorld, key: Seq<char>) -> bool {
    !w.fs.contains_key(payload_path_of(root, key))
}

/// Retrieving the same key twice returns byte-identical payloads, and the
/// second retrieval performs no network access and writes nothing, whatever
/// the network would answer by then.
pub proof fn lemma_retrieve_idempotent(
    root: Seq<char>,
    w: CacheWorld,
    key: Seq<char>,
    net2: Option<(bool, Seq<u8>)>,
)
    requires
        retrieve_result(root, w, key) is Ok,
    ensures
        ({
            let w2 = CacheWorld { fs: retrieve_fs_after(root, w, key), net: net2 };
            &&& retrieve_result(root, w2, key) == retrieve_result(root, w, key)
            &&& !retrieve_fetches(root, w2, key)
            &&& retrieve_fs_after(root, w2, key) == w2.fs
        }),
{
}

/// After a retrieval succeeds, any store instance pointed at the same root
/// returns the same payload without a network call: the outcome depends on
/// the root and the durable artifacts alone, never on the instance.
pub proof fn lemma_retrieve_persistent(
    first: Cache,
    fresh: Cache,
    w: CacheWorld,
    key: Seq<char>,
    net2: Option<(bool, Seq<u8>)>,
)
    requires
        fresh.root@ == first.root@,
        retrieve_result(first.root@, w, key) is Ok,
    ensures
        ({
            let w2 = CacheWorld { fs: retrieve_fs_after(first.root@, w, key), net: net2 };
            &&& retrieve_result(fresh.root@, w2, key) == retrieve_result(first.root@, w, key)
            &&& !retrieve_fetches(fresh.root@, w2, key)
        }),
{
}

/// A `Result` of bytes, seen at the spec level.
pub open spec fn result_view(r: Result<Vec<u8>, TroveError>) -> Result<Seq<u8>, TroveError> {
    match r {
        Ok(b) => Ok(b@),
        Err(e) => Err(e),
    }
}

/// Whether `w` is the world the plain answers describe: the payload file's
/// contents if it exists, and what a fetch of the key would return.
pub open spec fn world_matches(
    root: Seq<char>,
    key: Seq<char>,
    w: CacheWorld,
    payload_file: Option<Vec<u8>>,
    response: Option<(bool, Vec<u8>)>,
) -> bool {
    let p = payload_path_of(root, key);
    &&& (payload_file is Some <==> w.fs.contains_key(p))
    &&& (payload_file matches Some(c) ==> w.fs[p] == c@)
    &&& (match response {
        None => w.net is None,
        Some((ok, b)) => w.net == Some((ok, b@)),
    })
}

/// What the caller is asked to do next while driving a retrieval.
pub enum RetrieveAction {
    /// Report whether a file exists at `path`.
    CheckExists { path: String },
    /// Read the file at `path` whole.
    ReadFile { path: String },
    /// Fetch `url` over the network.
    FetchUrl { url: String },
    /// Write `data` to `path`, creating the file.
    WriteFile { path: String, data: Vec<u8> },
}

/// Where a retrieval stands: which event it waits for.
pub enum RetrieveState {
    /// Waiting to hear whether the payload file exists.
    Lookup,
    /// A hit: waiting for the payload file's contents.
    Read,
    /// A miss: waiting for the network response.
    Fetch,
    /// Waiting to hear that the sidecar was written; the fetched body is
    /// held for the write that follows.
    SidecarWrite { body: Vec<u8> },
    /// Waiting to hear that the payload file was written.
    PayloadWrite { held: Ghost<Seq<u8>> },
}

/// One step's outcome: either the protocol continues with a next action, or
/// it is over with a result.
pub enum RetrieveStep {
    Next { session: Retrieval, action: RetrieveAction },
    Done { result: Result<Vec<u8>, TroveError> },
}

/// One retrieval in flight: the key, the two derived paths, and the event
/// the protocol waits for.
pub struct Retrieval {
    pub root: String,
    pub key: String,
    pub payload_path: String,
    pub sidecar_path: String,
    pub state: RetrieveState,
}

impl Retrieval {
    /// Both stored paths are the ones the key derives to under the root.
    pub open spec fn wf(&self) -> bool {
        &&& self.payload_path@ == payload_path_of(self.root@, self.key@)
        &&& self.sidecar_path@ == sidecar_path_of(self.root@, self.key@)
    }

    /// Root, key and paths never change while a retrieval runs.
    pub open spec fn same_ids(&self, other: &Retrieval) -> bool {
        &&& self.root@ == other.root@
        &&& self.key@ == other.key@
        &&& self.payload_path@ == other.payload_path@
        &&& self.sidecar_path@ == other.sidecar_path@
    }

    /// A hit goes on to read the payload file; a miss fetches the key as a
    /// URL. There is no staleness check: existence alone decides.
    pub fn lookup_done(self, exists: bool) -> (r: (Retrieval, RetrieveAction))
        requires
            self.state is Lookup,
            self.wf(),
        ensures
            r.0.wf(),
            r.0.same_ids(&self),
            exists ==> r.0.state is Read && (r.1 matches RetrieveAction::ReadFile { path }
                && path@ == payload_path_of(self.root@, self.key@)),
            !exists ==> r.0.state is Fetch && (r.1 matches RetrieveAction::FetchUrl { url }
                && url@ == self.key@),
    {
        if exists {
            let action = RetrieveAction::ReadFile { path: self.payload_path.clone() };
            (Retrieval { state: RetrieveState::Read, ..self }, action)
        } else {
            let action = RetrieveAction::FetchUrl { url: self.key.clone() };
            (Retrieval { state: RetrieveState::Fetch, ..self }, action)
        }
    }

    /// On a hit the persisted payload is the result, byte for byte; a failed
    /// read fails the retrieval.
    pub fn read_done(self, contents: Option<Vec<u8>>) -> (r: Result<Vec<u8>, TroveError>)
        requires
            self.state is Read,
        ensures
            contents matches Some(c) ==> (r matches Ok(b) && b@ == c@),
            contents is None ==> r == Err::<Vec<u8>, TroveError>(TroveError::Io),
    {
        match contents {
            Some(c) => Ok(c),
            None => Err(TroveError::Io),
        }
    }

    /// A transport failure or a non-success status fails the retrieval — no
    /// retry, and never a silent empty substitute. A success body starts the
    /// two persisting writes, the sidecar (the key's UTF-8 bytes) first.
    pub fn fetch_done(self, response: Option<(bool, Vec<u8>)>) -> (r: RetrieveStep)
        requires
            self.state is Fetch,
            self.wf(),
        ensures
            response is None ==> r matches RetrieveStep::Done {
                result: Err(TroveError::Network),
            },
            response matches Some((ok, body)) ==> if !ok {
                r matches RetrieveStep::Done { result: Err(TroveError::HttpStatus) }
            } else {
                r matches RetrieveStep::Next { session, action } && session.wf()
                    && session.same_ids(&self) && (session.state
                    matches RetrieveState::SidecarWrite { body: held } && held@ == body@) && (action
                    matches RetrieveAction::WriteFile { path, data } && path@ == sidecar_path_of(
                    self.root@,
                    self.key@,
                ) && data@ == encode_utf8(self.key@))
            },
    {
        match response {
            None => RetrieveStep::Done { result: Err(TroveError::Network) },
            Some((ok, body)) => {
                if ok {
                    let data = self.key.as_str().as_bytes_vec();
                    let action = RetrieveAction::WriteFile {
                        path: self.sidecar_path.clone(),
                        data,
                    };
                    let session = Retrieval { state: RetrieveState::SidecarWrite { body }, ..self };
                    RetrieveStep::Next { session, action }
                } else {
                    RetrieveStep::Done { result: Err(TroveError::HttpStatus) }
                }
            },
        }
    }

    /// A persisted sidecar is followed by the payload write; a failed write
    /// fails the retrieval, and the payload is never returned without both
    /// artifacts durable.
    pub fn sidecar_write_done(self, ok: bool) -> (r: RetrieveStep)
        requires
            self.state is SidecarWrite,
            self.wf(),
        ensures
            !ok ==> r matches RetrieveStep::Done { result: Err(TroveError::Io) },
            ok ==> (r matches RetrieveStep::Next { session, action } && session.wf()
                && session.same_ids(&self) && (session.state matches RetrieveState::PayloadWrite {
                held,
            } && held@ == self.state->SidecarWrite_body@) && (action
                matches RetrieveAction::WriteFile { path, data } && path@ == payload_path_of(
                self.root@,
                self.key@,
            ) && data@ == self.state->SidecarWrite_body@)),
    {
        if !ok {
            return RetrieveStep::Done { result: Err(TroveError::Io) };
        }
        let Retrieval { root, key, payload_path, sidecar_path, state } = self;
        match state {
            RetrieveState::SidecarWrite { body } => {
                let ghost held = body@;
                let action = RetrieveAction::WriteFile { path: payload_path.clone(), data: body };
                let session = Retrieval {
                    root,
                    key,
                    payload_path,
                    sidecar_path,
                    state: RetrieveState::PayloadWrite { held: Ghost(held) },
                };
                RetrieveStep::Next { session, action }
            },
            _ => {
                proof {
                    assert(false);
                }
                RetrieveStep::Done { result: Err(TroveError::Io) }
            },
        }
    }

    /// The last step: the caller hands back the bytes it just wrote. With
    /// both artifacts durable they are the result; a failed write fails the
    /// retrieval.
    pub fn payload_write_done(self, ok: bool, data: Vec<u8>) -> (r: Result<Vec<u8>, TroveError>)
        requires
            self.state matches RetrieveState::PayloadWrite { held } && data@ == held@,
        ensures
            ok ==> (r matches Ok(b) && b@ == self.state->PayloadWrite_held@),
            !ok ==> r == Err::<Vec<u8>, TroveError>(TroveError::Io),
    {
        if ok {
            Ok(data)
        } else {
            Err(TroveError::Io)
        }
    }
}

impl Cache {
    /// A store rooted at `root`. The caller makes sure the directory exists;
    /// construction itself touches nothing.
    pub fn new(root: String) -> (c: Cache)
        ensures
            c.root@ == root@,
    {
        Cache { root }
    }

    /// Where the payload for `key` is stored.
    pub fn payload_path(&self, key: &str) -> (p: String)
        ensures
            p@ == payload_path_of(self.root@, key@),
    {
        let digest = fingerprint(key);
        path_join(self.root.as_str(), digest.as_str())
    }

    /// Where the sidecar for `key` is stored.
    pub fn sidecar_path(&self, key: &str) -> (p: String)
        ensures
            p@ == sidecar_path_of(self.root@, key@),
    {
        let p = self.payload_path(key);
        proof {
            reveal_strlit(".url");
            assert(".url"@ =~= seq!['.', 'u', 'r', 'l']);
        }
        let s = p.concat(".url");
        proof {
            assert(s@ =~= sidecar_path_of(self.root@, key@));
        }
        s
    }

    /// Begins the get-or-populate protocol for `key`: the first thing to
    /// learn is whether the payload file already exists.
    pub fn retrieve(&self, key: &str) -> (r: (Retrieval, RetrieveAction))
        ensures
            r.0.wf(),
            r.0.root@ == self.root@,
            r.0.key@ == key@,
            r.0.state is Lookup,
            r.1 matches RetrieveAction::CheckExists { path } && path@ == payload_path_of(
                self.root@,
                key@,
            ),
    {
        let payload_path = self.payload_path(key);
        let sidecar_path = self.sidecar_path(key);
        let action = RetrieveAction::CheckExists { path: payload_path.clone() };
        let session = Retrieval {
            root: self.root.clone(),
            key: key.to_owned(),
            payload_path,
            sidecar_path,
            state: RetrieveState::Lookup,
        };
        (session, action)
    }
}

/// One whole retrieval, run against plain answers: the payload file's
/// contents if it exists, what a fetch would return, and whether each of the
/// two writes would succeed. Returns the result and whether the network was
/// reached. The protocol steps present these decisions one event at a time;
/// this form shows them composed against the store model above.
pub fn retrieve_once(
    cache: &Cache,
    key: &str,
    payload_file: Option<Vec<u8>>,
    response: Option<(bool, Vec<u8>)>,
    sidecar_ok: bool,
    payload_ok: bool,
) -> (r: (Result<Vec<u8>, TroveError>, bool))
    ensures
        r.1 == (payload_file is None),
        payload_file matches Some(c) ==> (r.0 matches Ok(b) && b@ == c@),
        payload_file is None ==> (match response {
            None => r.0 == Err::<Vec<u8>, TroveError>(TroveError::Network),
            Some((ok, body)) => if !ok {
                r.0 == Err::<Vec<u8>, TroveError>(TroveError::HttpStatus)
            } else if !sidecar_ok || !payload_ok {
                r.0 == Err::<Vec<u8>, TroveError>(TroveError::Io)
            } else {
                r.0 matches Ok(b) && b@ == body@
            },
        }),
        (sidecar_ok && payload_ok) ==> forall|w: CacheWorld|
            #[trigger] world_matches(cache.root@, key@, w, payload_file, response) ==> result_view(
                r.0,
            ) == retrieve_result(cache.root@, w, key@) && r.1 == retrieve_fetches(
                cache.root@,
                w,
                key@,
            ),
{
    let (session, _action) = cache.retrieve(key);
    let exists = payload_file.is_some();
    let (session, _action) = session.lookup_done(exists);
    if exists {
        let result = session.read_done(payload_file);
        return (result, false);
    }
    match session.fetch_done(response) {
        RetrieveStep::Done { result } => (result, true),
        RetrieveStep::Next { session, action: _ } => {
            match session.sidecar_write_done(sidecar_ok) {
                RetrieveStep::Done { result } => (result, true),
                RetrieveStep::Next { session, action } => {
                    match action {
                        RetrieveAction::WriteFile { path: _, data } => {
                            let result = session.payload_write_done(payload_ok, data);
                            (result, true)
                        },
                        _ => {
                            proof {
                                assert(false);
                            }
                            (Err(TroveError::Io), true)
                        },
                    }
                },
            }
        },
    }
}

} // verus!
