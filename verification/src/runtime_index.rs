//! The indexes that are kept on disk beside a database, and when they may be used again.
use vstd::prelude::*;

use crate::text;
use crate::textmap::TextMap;

verus! {

pub const RUNTIME_INDEX_SCHEMA_VERSION: u32 = 1;

pub const NAVIGATION_INDEX_VERSION: u32 = 2;

pub const SEARCH_INDEX_VERSION: u32 = 2;

pub const USAGE_INDEX_VERSION: u32 = 2;

pub const ASSET_INDEX_VERSION: u32 = 1;

/// The graph of assets in the form in which it is kept.
pub struct AssetRuntimeIndex {
    pub references: TextMap<Vec<String>>,
    pub derived: TextMap<Vec<String>>,
    pub functions: TextMap<Vec<String>>,
}

/// The list under each name.
pub open spec fn lists_of(m: TextMap<Vec<String>>) -> Map<Seq<char>, Seq<Seq<char>>> {
    Map::new(|k: Seq<char>| m.spec_get(k) is Some, |k: Seq<char>| text::texts(m.spec_get(k)->0@))
}

impl Default for AssetRuntimeIndex {
    fn default() -> (r: Self)
        ensures
            r.references.pairs().len() == 0,
            r.derived.pairs().len() == 0,
            r.functions.pairs().len() == 0,
    {
        AssetRuntimeIndex {
            references: TextMap::new(),
            derived: TextMap::new(),
            functions: TextMap::new(),
        }
    }
}

impl AssetRuntimeIndex {
    /// How many names are listed.
    pub fn size_hint(&self) -> (r: usize)
        requires
            self.references.pairs().len() + self.derived.pairs().len()
                + self.functions.pairs().len() <= usize::MAX,
        ensures
            r == self.references.pairs().len() + self.derived.pairs().len()
                + self.functions.pairs().len(),
    {
        self.references.len() + self.derived.len() + self.functions.len()
    }
}

/// What is known of the kept indexes: the database that they were made from, and the version of
/// each.
#[derive(Clone, Copy, PartialEq, Eq, Structural, Debug)]
pub struct RuntimeIndexManifest {
    pub schema_version: u32,
    pub db_size: u64,
    pub db_mtime_secs: u64,
    pub navigation_version: Option<u32>,
    pub search_version: Option<u32>,
    pub usage_version: Option<u32>,
    pub asset_version: Option<u32>,
}

pub open spec fn empty_manifest() -> RuntimeIndexManifest {
    RuntimeIndexManifest {
        schema_version: 0,
        db_size: 0,
        db_mtime_secs: 0,
        navigation_version: None,
        search_version: None,
        usage_version: None,
        asset_version: None,
    }
}

impl Default for RuntimeIndexManifest {
    fn default() -> (r: Self)
        ensures
            r == empty_manifest(),
    {
        RuntimeIndexManifest {
            schema_version: 0,
            db_size: 0,
            db_mtime_secs: 0,
            navigation_version: None,
            search_version: None,
            usage_version: None,
            asset_version: None,
        }
    }
}

#[derive(Clone, Copy, PartialEq, Eq, Structural, Debug)]
pub enum RuntimeIndexKind {
    Navigation,
    Search,
    Usage,
    Asset,
}

/// The size of a database and when it was last written.
#[derive(Clone, Copy, PartialEq, Eq, Structural, Debug)]
pub struct DbStamp {
    pub size: u64,
    pub mtime_secs: u64,
}

pub open spec fn version_of(m: RuntimeIndexManifest, kind: RuntimeIndexKind) -> Option<u32> {
    match kind {
        RuntimeIndexKind::Navigation => m.navigation_version,
        RuntimeIndexKind::Search => m.search_version,
        RuntimeIndexKind::Usage => m.usage_version,
        RuntimeIndexKind::Asset => m.asset_version,
    }
}

/// The kept index was made from the database as it is, in the version that is expected.
pub open spec fn usable(
    manifest: Option<RuntimeIndexManifest>,
    db: DbStamp,
    kind: RuntimeIndexKind,
    version: u32,
) -> bool {
    match manifest {
        Some(m) => m.schema_version == RUNTIME_INDEX_SCHEMA_VERSION && m.db_size == db.size
            && m.db_mtime_secs == db.mtime_secs && version_of(m, kind) == Some(version),
        None => false,
    }
}

/// The manifest after an index was kept.
pub open spec fn recorded(
    manifest: Option<RuntimeIndexManifest>,
    db: DbStamp,
    kind: RuntimeIndexKind,
    version: u32,
) -> RuntimeIndexManifest {
    let old = match manifest {
        Some(m) => if m.schema_version == RUNTIME_INDEX_SCHEMA_VERSION {
            m
        } else {
            empty_manifest()
        },
        None => empty_manifest(),
    };
    let m = RuntimeIndexManifest {
        schema_version: RUNTIME_INDEX_SCHEMA_VERSION,
        db_size: db.size,
        db_mtime_secs: db.mtime_secs,
        ..old
    };
    match kind {
        RuntimeIndexKind::Navigation => RuntimeIndexManifest {
            navigation_version: Some(version),
            ..m
        },
        RuntimeIndexKind::Search => RuntimeIndexManifest { search_version: Some(version), ..m },
        RuntimeIndexKind::Usage => RuntimeIndexManifest { usage_version: Some(version), ..m },
        RuntimeIndexKind::Asset => RuntimeIndexManifest { asset_version: Some(version), ..m },
    }
}

/// An index that was kept may be used while the database stays as it was.
pub proof fn kept_index_is_usable(
    manifest: Option<RuntimeIndexManifest>,
    db: DbStamp,
    kind: RuntimeIndexKind,
    version: u32,
)
    ensures
        usable(Some(recorded(manifest, db, kind, version)), db, kind, version),
{
}

/// Once the database changed, an index that was kept before may not be used.
pub proof fn stale_index_is_not_usable(
    manifest: Option<RuntimeIndexManifest>,
    before: DbStamp,
    now: DbStamp,
    kept: RuntimeIndexKind,
    asked: RuntimeIndexKind,
    version: u32,
    expected: u32,
)
    requires
        before != now,
    ensures
        !usable(Some(recorded(manifest, before, kept, version)), now, asked, expected),
{
}

/// Keeping one index leaves another usable, where it was made from the same database.
pub proof fn keeping_one_index_keeps_the_others(
    manifest: Option<RuntimeIndexManifest>,
    db: DbStamp,
    kept: RuntimeIndexKind,
    other: RuntimeIndexKind,
    version: u32,
    expected: u32,
)
    requires
        kept != other,
        usable(manifest, db, other, expected),
    ensures
        usable(Some(recorded(manifest, db, kept, version)), db, other, expected),
{
}

/// A manifest of another schema says nothing.
pub fn load_manifest(manifest: Option<RuntimeIndexManifest>) -> (r: Option<RuntimeIndexManifest>)
    ensures
        r == match manifest {
            Some(m) => if m.schema_version == RUNTIME_INDEX_SCHEMA_VERSION {
                Some(m)
            } else {
                None
            },
            None => None,
        },
{
    match manifest {
        Some(m) => if m.schema_version == RUNTIME_INDEX_SCHEMA_VERSION {
            Some(m)
        } else {
            None
        },
        None => None,
    }
}

pub fn manifest_matches_db(db: DbStamp, manifest: &RuntimeIndexManifest) -> (r: bool)
    ensures
        r == (manifest.db_size == db.size && manifest.db_mtime_secs == db.mtime_secs),
{
    db.size == manifest.db_size && db.mtime_secs == manifest.db_mtime_secs
}

fn load_index(
    manifest: Option<RuntimeIndexManifest>,
    db: DbStamp,
    kind: RuntimeIndexKind,
    expected_version: u32,
) -> (r: bool)
    ensures
        r == usable(manifest, db, kind, expected_version),
{
    let m = match load_manifest(manifest) {
        Some(m) => m,
        None => {
            return false;
        },
    };
    if !manifest_matches_db(db, &m) {
        return false;
    }
    let kept: Option<u32> = match kind {
        RuntimeIndexKind::Navigation => m.navigation_version,
        RuntimeIndexKind::Search => m.search_version,
        RuntimeIndexKind::Usage => m.usage_version,
        RuntimeIndexKind::Asset => m.asset_version,
    };
    match kept {
        Some(v) => v == expected_version,
        None => false,
    }
}

fn save_index(
    manifest: Option<RuntimeIndexManifest>,
    db: DbStamp,
    kind: RuntimeIndexKind,
    version: u32,
) -> (r: RuntimeIndexManifest)
    ensures
        r == recorded(manifest, db, kind, version),
{
    let mut m = match load_manifest(manifest) {
        Some(m) => m,
        None => RuntimeIndexManifest::default(),
    };
    m.schema_version = RUNTIME_INDEX_SCHEMA_VERSION;
    m.db_size = db.size;
    m.db_mtime_secs = db.mtime_secs;
    match kind {
        RuntimeIndexKind::Navigation => {
            m.navigation_version = Some(version);
        },
        RuntimeIndexKind::Search => {
            m.search_version = Some(version);
        },
        RuntimeIndexKind::Usage => {
            m.usage_version = Some(version);
        },
        RuntimeIndexKind::Asset => {
            m.asset_version = Some(version);
        },
    }
    m
}

/// Whether the kept navigation index may be loaded.
pub fn load_navigation_index(manifest: Option<RuntimeIndexManifest>, db: DbStamp) -> (r: bool)
    ensures
        r == usable(manifest, db, RuntimeIndexKind::Navigation, NAVIGATION_INDEX_VERSION),
{
    load_index(manifest, db, RuntimeIndexKind::Navigation, NAVIGATION_INDEX_VERSION)
}

/// The manifest once the navigation index was written.
pub fn save_navigation_index(manifest: Option<RuntimeIndexManifest>, db: DbStamp) -> (r: RuntimeIndexManifest)
    ensures
        r == recorded(manifest, db, RuntimeIndexKind::Navigation, NAVIGATION_INDEX_VERSION),
{
    save_index(manifest, db, RuntimeIndexKind::Navigation, NAVIGATION_INDEX_VERSION)
}

/// Whether the kept search index may be loaded.
pub fn load_search_index(manifest: Option<RuntimeIndexManifest>, db: DbStamp) -> (r: bool)
    ensures
        r == usable(manifest, db, RuntimeIndexKind::Search, SEARCH_INDEX_VERSION),
{
    load_index(manifest, db, RuntimeIndexKind::Search, SEARCH_INDEX_VERSION)
}

/// The manifest once the search index was written.
pub fn save_search_index(manifest: Option<RuntimeIndexManifest>, db: DbStamp) -> (r: RuntimeIndexManifest)
    ensures
        r == recorded(manifest, db, RuntimeIndexKind::Search, SEARCH_INDEX_VERSION),
{
    save_index(manifest, db, RuntimeIndexKind::Search, SEARCH_INDEX_VERSION)
}

/// Whether the kept usage index may be loaded.
pub fn load_usage_index(manifest: Option<RuntimeIndexManifest>, db: DbStamp) -> (r: bool)
    ensures
        r == usable(manifest, db, RuntimeIndexKind::Usage, USAGE_INDEX_VERSION),
{
    load_index(manifest, db, RuntimeIndexKind::Usage, USAGE_INDEX_VERSION)
}

/// The manifest once the usage index was written.
pub fn save_usage_index(manifest: Option<RuntimeIndexManifest>, db: DbStamp) -> (r: RuntimeIndexManifest)
    ensures
        r == recorded(manifest, db, RuntimeIndexKind::Usage, USAGE_INDEX_VERSION),
{
    save_index(manifest, db, RuntimeIndexKind::Usage, USAGE_INDEX_VERSION)
}

/// Whether the kept asset index may be loaded.
pub fn load_asset_index(manifest: Option<RuntimeIndexManifest>, db: DbStamp) -> (r: bool)
    ensures
        r == usable(manifest, db, RuntimeIndexKind::Asset, ASSET_INDEX_VERSION),
{
    load_index(manifest, db, RuntimeIndexKind::Asset, ASSET_INDEX_VERSION)
}

/// The manifest once the asset index was written.
pub fn save_asset_index(manifest: Option<RuntimeIndexManifest>, db: DbStamp) -> (r: RuntimeIndexManifest)
    ensures
        r == recorded(manifest, db, RuntimeIndexKind::Asset, ASSET_INDEX_VERSION),
{
    save_index(manifest, db, RuntimeIndexKind::Asset, ASSET_INDEX_VERSION)
}

pub open spec fn file_name_of(kind: RuntimeIndexKind) -> Seq<char> {
    match kind {
        RuntimeIndexKind::Navigation => "nav.idx"@,
        RuntimeIndexKind::Search => "symbol.idx"@,
        RuntimeIndexKind::Usage => "usage.idx"@,
        RuntimeIndexKind::Asset => "asset.idx"@,
    }
}

/// The name of the file in which an index is kept.
pub fn index_file_name(kind: RuntimeIndexKind) -> (r: &'static str)
    ensures
        r@ == file_name_of(kind),
{
    match kind {
        RuntimeIndexKind::Navigation => "nav.idx",
        RuntimeIndexKind::Search => "symbol.idx",
        RuntimeIndexKind::Usage => "usage.idx",
        RuntimeIndexKind::Asset => "asset.idx",
    }
}

/// Two indexes are kept in different files.
pub proof fn index_files_differ(a: RuntimeIndexKind, b: RuntimeIndexKind)
    requires
        a != b,
    ensures
        file_name_of(a) != file_name_of(b),
{
    reveal_strlit("nav.idx");
    reveal_strlit("symbol.idx");
    reveal_strlit("usage.idx");
    reveal_strlit("asset.idx");
    assert("nav.idx"@[0] == 'n');
    assert("symbol.idx"@[0] == 's');
    assert("usage.idx"@[0] == 'u');
    assert("asset.idx"@[0] == 'a');
}

/// The SHA-256 digest of the UTF-8 bytes of a text.
pub uninterp spec fn sha256_of(s: Seq<char>) -> Seq<u8>;

/// `sha2::Sha256::digest` of the bytes of the text: 32 bytes that depend on the text alone.
#[verifier::external_body]
fn sha256(s: &str) -> (r: Vec<u8>)
    ensures
        r@ == sha256_of(s@),
        r@.len() == 32,
{
    <sha2::Sha256 as sha2::Digest>::digest(s.as_bytes()).to_vec()
}

pub open spec fn hex_digit(d: u8) -> char {
    if d < 10 {
        ('0' as u8 + d) as u8 as char
    } else {
        ('a' as u8 + (d - 10)) as u8 as char
    }
}

/// Two lower-case hexadecimal digits for each byte.
pub open spec fn hex_of(bytes: Seq<u8>) -> Seq<char>
    decreases bytes.len(),
{
    if bytes.len() == 0 {
        Seq::empty()
    } else {
        hex_of(bytes.drop_last()).push(hex_digit((bytes.last() / 16) as u8)).push(
            hex_digit((bytes.last() % 16) as u8),
        )
    }
}

/// `hex::encode` writes each byte as two lower-case hexadecimal digits, the higher first.
#[verifier::external_body]
fn hex_encode(bytes: &[u8]) -> (r: String)
    ensures
        r@ == hex_of(bytes@),
{
    hex::encode(bytes)
}

proof fn lemma_hex_len(bytes: Seq<u8>)
    ensures
        hex_of(bytes).len() == 2 * bytes.len(),
    decreases bytes.len(),
{
    if bytes.len() > 0 {
        lemma_hex_len(bytes.drop_last());
    }
}

/// The name of the directory for the indexes of a database: the name of its file without the
/// extension, and twelve digits that tell databases of the same name apart.
pub open spec fn directory_name(stem: Option<Seq<char>>, db_path: Seq<char>) -> Seq<char> {
    (match stem {
        Some(s) => s,
        None => "ucore"@,
    }) + "-"@ + hex_of(sha256_of(db_path)).take(12)
}

/// The directory name from the digits of the digest.
pub fn directory_with_digits(stem: Option<&str>, digits: &str) -> (r: String)
    requires
        digits@.len() >= 12,
    ensures
        r@ == (match text::opt_str(stem) {
            Some(s) => s,
            None => "ucore"@,
        }) + "-"@ + digits@.take(12),
{
    let stem = match stem {
        Some(s) => s,
        None => "ucore",
    };
    let short = digits.substring_char(0, 12);
    assert(short@ =~= digits@.take(12));
    text::concat3(stem, "-", short)
}

/// The name of the directory for the indexes of a database, under `.ucore/index` beside it.
pub fn index_dir_name(stem: Option<&str>, primary_db_path: &str) -> (r: String)
    ensures
        r@ == directory_name(text::opt_str(stem), primary_db_path@),
{
    let digest = sha256(primary_db_path);
    let digits = hex_encode(digest.as_slice());
    proof {
        lemma_hex_len(digest@);
    }
    directory_with_digits(stem, &digits)
}

/// The number that a hexadecimal digit stands for.
pub open spec fn digit_value(c: char) -> int {
    if '0' <= c <= '9' {
        c as u32 - '0' as u32
    } else {
        c as u32 - 'a' as u32 + 10
    }
}

/// Every byte is written with two digits, the higher first, from which it is read back.
pub proof fn hexadecimal_digits_read_back(bytes: Seq<u8>, i: int)
    requires
        0 <= i < bytes.len(),
    ensures
        hex_of(bytes).len() == 2 * bytes.len(),
        digit_value(hex_of(bytes)[2 * i]) * 16 + digit_value(hex_of(bytes)[2 * i + 1]) == bytes[i],
    decreases bytes.len(),
{
    let rest = bytes.drop_last();
    let last = bytes.last();
    let high = (last / 16) as u8;
    let low = (last % 16) as u8;
    assert(high < 16 && low < 16 && high * 16 + low == last);
    assert(digit_value(hex_digit(high)) == high);
    assert(digit_value(hex_digit(low)) == low);
    if rest.len() > 0 {
        hexadecimal_digits_read_back(rest, if i < rest.len() { i } else { 0 });
    }
    assert(hex_of(rest).len() == 2 * rest.len());
}

/// An index that was kept in another version may not be used, nor one that was never kept.
pub proof fn other_versions_are_not_usable(
    manifest: Option<RuntimeIndexManifest>,
    db: DbStamp,
    kind: RuntimeIndexKind,
    version: u32,
    expected: u32,
)
    requires
        version != expected,
    ensures
        !usable(Some(recorded(manifest, db, kind, version)), db, kind, expected),
        !usable(None, db, kind, expected),
        manifest is None ==> forall|other: RuntimeIndexKind|
            other != kind ==> !#[trigger] usable(
                Some(recorded(manifest, db, kind, version)),
                db,
                other,
                expected,
            ),
{
}

} // verus!
