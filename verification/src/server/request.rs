//! Requests: what they are called, where they are answered, and how answers are framed.
use vstd::prelude::*;

use super::cache::OpenBufferOverlay;
use crate::text;

verus! {

/// Asks the server to forget a project.
pub struct DeleteProjectRequest {
    pub project_root: String,
}

/// A client says that it is there.
pub struct PingRequest {
    pub pid: u32,
}

/// A query about a project, and perhaps its engine.
pub struct ServerQueryRequest {
    pub project_root: String,
    pub engine_db_path: Option<String>,
    pub query: QueryRequest,
}

/// The queries. Those that only the store of the project answers, and of which nothing else is
/// said here, are held by the caller under a number.
pub enum QueryRequest {
    SearchSymbols { pattern: String, limit: usize, offset: usize },
    SearchClassSymbols { pattern: String, limit: usize, offset: usize },
    FastFind { pattern: String, limit: usize, offset: usize, scope: Option<String> },
    SearchCodeText { pattern: String, limit: usize, offset: usize, scope: Option<String> },
    UnifiedLiveFind {
        pattern: String,
        limit: usize,
        offset: usize,
        current_file: Option<String>,
        repeated_query: bool,
    },
    GlobalFind { pattern: String, limit: usize, offset: usize },
    FindSymbolUsages {
        symbol_name: String,
        file_path: Option<String>,
        content: Option<String>,
        line: Option<u32>,
        character: Option<u32>,
    },
    GotoDefinition { content: String, line: u32, character: u32, file_path: Option<String> },
    GotoImplementation { content: String, line: u32, character: u32, file_path: Option<String> },
    GetHover { content: String, line: u32, character: u32, file_path: Option<String> },
    GetSignatureHelp { content: String, line: u32, character: u32, file_path: Option<String> },
    GetCompletions { content: String, line: u32, character: u32, file_path: Option<String> },
    GetDiagnostics {
        content: String,
        file_path: Option<String>,
        open_files: Vec<OpenBufferOverlay>,
    },
    ParseBuildDiagnostics { output: String },
    GetAssets,
    GetAssetIndexStatus,
    GetAssetUsages { asset_path: String },
    GetAssetUsageHints { names: Vec<String> },
    GetAssetDependencies { asset_path: String },
    FindDerivedClasses { base_class: String },
    GetConfigData { engine_root: Option<String> },
    GetClassMembers { class_name: String },
    GetClassMembersRecursive { held: u64 },
    GetFileSymbols { held: u64 },
    GetFilesInModulesAsync { held: u64 },
    SearchFilesInModulesAsync { held: u64 },
    SearchFilesByPathPartAsync { held: u64 },
    GetClassesInModulesAsync { held: u64 },
    FindSymbolUsagesAsync { held: u64 },
    GrepAssets { held: u64 },
    Other { held: u64 },
}

pub open spec fn streams(q: QueryRequest) -> bool {
    q is GetFilesInModulesAsync || q is SearchFilesInModulesAsync || q is SearchFilesByPathPartAsync
        || q is GetClassesInModulesAsync || q is FindSymbolUsagesAsync || q is GrepAssets
}

/// The answer to the query comes in parts.
pub fn is_streaming_query(request: &QueryRequest) -> (r: bool)
    ensures
        r == streams(*request),
{
    match request {
        QueryRequest::GetFilesInModulesAsync { .. } => true,
        QueryRequest::SearchFilesInModulesAsync { .. } => true,
        QueryRequest::SearchFilesByPathPartAsync { .. } => true,
        QueryRequest::GetClassesInModulesAsync { .. } => true,
        QueryRequest::FindSymbolUsagesAsync { .. } => true,
        QueryRequest::GrepAssets { .. } => true,
        _ => false,
    }
}

/// Where a query is answered.
#[derive(Clone, Copy, PartialEq, Eq, Structural, Debug)]
pub enum QueryRoute {
    Symbols,
    Classes,
    FastFind,
    CodeText,
    /// A live search; its first page is sent ahead where it is the first one.
    LiveFind { ahead: bool },
    GlobalFind,
    References,
    Definition,
    Implementation,
    Hover,
    SignatureHelp,
    Completions,
    Diagnostics,
    BuildDiagnostics,
    Assets,
    AssetIndexStatus,
    AssetUsages,
    AssetUsageHints,
    AssetDependencies,
    DerivedClasses,
    ConfigData,
    /// The store of the project alone, perhaps in parts.
    Store { streaming: bool },
}

pub open spec fn route_of(q: QueryRequest) -> QueryRoute {
    match q {
        QueryRequest::SearchSymbols { .. } => QueryRoute::Symbols,
        QueryRequest::SearchClassSymbols { .. } => QueryRoute::Classes,
        QueryRequest::FastFind { .. } => QueryRoute::FastFind,
        QueryRequest::SearchCodeText { .. } => QueryRoute::CodeText,
        QueryRequest::UnifiedLiveFind { offset, .. } => QueryRoute::LiveFind { ahead: offset == 0 },
        QueryRequest::GlobalFind { .. } => QueryRoute::GlobalFind,
        QueryRequest::FindSymbolUsages { .. } => QueryRoute::References,
        QueryRequest::GotoDefinition { .. } => QueryRoute::Definition,
        QueryRequest::GotoImplementation { .. } => QueryRoute::Implementation,
        QueryRequest::GetHover { .. } => QueryRoute::Hover,
        QueryRequest::GetSignatureHelp { .. } => QueryRoute::SignatureHelp,
        QueryRequest::GetCompletions { .. } => QueryRoute::Completions,
        QueryRequest::GetDiagnostics { .. } => QueryRoute::Diagnostics,
        QueryRequest::ParseBuildDiagnostics { .. } => QueryRoute::BuildDiagnostics,
        QueryRequest::GetAssets => QueryRoute::Assets,
        QueryRequest::GetAssetIndexStatus => QueryRoute::AssetIndexStatus,
        QueryRequest::GetAssetUsages { .. } => QueryRoute::AssetUsages,
        QueryRequest::GetAssetUsageHints { .. } => QueryRoute::AssetUsageHints,
        QueryRequest::GetAssetDependencies { .. } => QueryRoute::AssetDependencies,
        QueryRequest::FindDerivedClasses { .. } => QueryRoute::DerivedClasses,
        QueryRequest::GetConfigData { .. } => QueryRoute::ConfigData,
        other => QueryRoute::Store { streaming: streams(other) },
    }
}

/// Where a query is answered.
pub fn handle_state_query(request: &QueryRequest) -> (r: QueryRoute)
    ensures
        r == route_of(*request),
{
    match request {
        QueryRequest::SearchSymbols { .. } => QueryRoute::Symbols,
        QueryRequest::SearchClassSymbols { .. } => QueryRoute::Classes,
        QueryRequest::FastFind { .. } => QueryRoute::FastFind,
        QueryRequest::SearchCodeText { .. } => QueryRoute::CodeText,
        QueryRequest::UnifiedLiveFind { offset, .. } => QueryRoute::LiveFind {
            ahead: *offset == 0,
        },
        QueryRequest::GlobalFind { .. } => QueryRoute::GlobalFind,
        QueryRequest::FindSymbolUsages { .. } => QueryRoute::References,
        QueryRequest::GotoDefinition { .. } => QueryRoute::Definition,
        QueryRequest::GotoImplementation { .. } => QueryRoute::Implementation,
        QueryRequest::GetHover { .. } => QueryRoute::Hover,
        QueryRequest::GetSignatureHelp { .. } => QueryRoute::SignatureHelp,
        QueryRequest::GetCompletions { .. } => QueryRoute::Completions,
        QueryRequest::GetDiagnostics { .. } => QueryRoute::Diagnostics,
        QueryRequest::ParseBuildDiagnostics { .. } => QueryRoute::BuildDiagnostics,
        QueryRequest::GetAssets => QueryRoute::Assets,
        QueryRequest::GetAssetIndexStatus => QueryRoute::AssetIndexStatus,
        QueryRequest::GetAssetUsages { .. } => QueryRoute::AssetUsages,
        QueryRequest::GetAssetUsageHints { .. } => QueryRoute::AssetUsageHints,
        QueryRequest::GetAssetDependencies { .. } => QueryRoute::AssetDependencies,
        QueryRequest::FindDerivedClasses { .. } => QueryRoute::DerivedClasses,
        QueryRequest::GetConfigData { .. } => QueryRoute::ConfigData,
        _ => QueryRoute::Store { streaming: is_streaming_query(request) },
    }
}

/// Queries that come in parts are answered by the store alone.
pub proof fn streams_come_from_the_store(q: QueryRequest)
    ensures
        streams(q) <==> route_of(q) == (QueryRoute::Store { streaming: true }),
{
}

// ---------------------------------------------------------------------------
// What a request is called
// ---------------------------------------------------------------------------
pub open spec fn label_of(q: QueryRequest) -> Seq<char> {
    match q {
        QueryRequest::GetDiagnostics { .. } => "GetDiagnostics"@,
        QueryRequest::GetCompletions { .. } => "GetCompletions"@,
        QueryRequest::GetHover { .. } => "GetHover"@,
        QueryRequest::GetSignatureHelp { .. } => "GetSignatureHelp"@,
        QueryRequest::GotoDefinition { .. } => "GotoDefinition"@,
        QueryRequest::GotoImplementation { .. } => "GotoImplementation"@,
        QueryRequest::GetFileSymbols { .. } => "GetFileSymbols"@,
        QueryRequest::GetClassMembers { .. } => "GetClassMembers"@,
        QueryRequest::GetClassMembersRecursive { .. } => "GetClassMembersRecursive"@,
        QueryRequest::FindDerivedClasses { .. } => "FindDerivedClasses"@,
        QueryRequest::GetAssets => "GetAssets"@,
        QueryRequest::GetAssetIndexStatus => "GetAssetIndexStatus"@,
        QueryRequest::GetAssetUsages { .. } => "GetAssetUsages"@,
        QueryRequest::GetAssetUsageHints { .. } => "GetAssetUsageHints"@,
        QueryRequest::GetAssetDependencies { .. } => "GetAssetDependencies"@,
        QueryRequest::FastFind { .. } => "FastFind"@,
        QueryRequest::UnifiedLiveFind { .. } => "UnifiedLiveFind"@,
        QueryRequest::GlobalFind { .. } => "GlobalFind"@,
        QueryRequest::SearchCodeText { .. } => "SearchCodeText"@,
        QueryRequest::SearchSymbols { .. } => "SearchSymbols"@,
        QueryRequest::SearchClassSymbols { .. } => "SearchClassSymbols"@,
        QueryRequest::FindSymbolUsages { .. } => "FindSymbolUsages"@,
        QueryRequest::GetConfigData { .. } => "GetConfigData"@,
        _ => "Other"@,
    }
}

pub fn query_request_label(request: &QueryRequest) -> (r: &'static str)
    ensures
        r@ == label_of(*request),
{
    match request {
        QueryRequest::GetDiagnostics { .. } => "GetDiagnostics",
        QueryRequest::GetCompletions { .. } => "GetCompletions",
        QueryRequest::GetHover { .. } => "GetHover",
        QueryRequest::GetSignatureHelp { .. } => "GetSignatureHelp",
        QueryRequest::GotoDefinition { .. } => "GotoDefinition",
        QueryRequest::GotoImplementation { .. } => "GotoImplementation",
        QueryRequest::GetFileSymbols { .. } => "GetFileSymbols",
        QueryRequest::GetClassMembers { .. } => "GetClassMembers",
        QueryRequest::GetClassMembersRecursive { .. } => "GetClassMembersRecursive",
        QueryRequest::FindDerivedClasses { .. } => "FindDerivedClasses",
        QueryRequest::GetAssets => "GetAssets",
        QueryRequest::GetAssetIndexStatus => "GetAssetIndexStatus",
        QueryRequest::GetAssetUsages { .. } => "GetAssetUsages",
        QueryRequest::GetAssetUsageHints { .. } => "GetAssetUsageHints",
        QueryRequest::GetAssetDependencies { .. } => "GetAssetDependencies",
        QueryRequest::FastFind { .. } => "FastFind",
        QueryRequest::UnifiedLiveFind { .. } => "UnifiedLiveFind",
        QueryRequest::GlobalFind { .. } => "GlobalFind",
        QueryRequest::SearchCodeText { .. } => "SearchCodeText",
        QueryRequest::SearchSymbols { .. } => "SearchSymbols",
        QueryRequest::SearchClassSymbols { .. } => "SearchClassSymbols",
        QueryRequest::FindSymbolUsages { .. } => "FindSymbolUsages",
        QueryRequest::GetConfigData { .. } => "GetConfigData",
        _ => "Other",
    }
}

/// The last part of a path.
pub open spec fn shortened(path: Option<Seq<char>>) -> Seq<char> {
    match path {
        Some(p) => text::last_part(p, '/'),
        None => "-"@,
    }
}

pub fn short_path(path: Option<&str>) -> (r: String)
    ensures
        r@ == shortened(text::opt_str(path)),
{
    match path {
        Some(p) => text::copy_of(text::last_part_of(p, '/')),
        None => text::copy_of("-"),
    }
}

pub open spec fn window(pattern: Seq<char>, limit: usize, offset: usize) -> Seq<char> {
    "pattern="@ + pattern + " limit="@ + text::decimal(limit as int) + " offset="@ + text::decimal(
        offset as int,
    )
}

pub open spec fn flag(b: bool) -> Seq<char> {
    if b {
        "true"@
    } else {
        "false"@
    }
}

pub open spec fn scope_or_project(scope: Option<Seq<char>>) -> Seq<char> {
    match scope {
        Some(s) => s,
        None => "project"@,
    }
}

/// What is said of a request besides its name.
pub open spec fn detail_of(q: QueryRequest) -> Option<Seq<char>> {
    match q {
        QueryRequest::GetDiagnostics { file_path, open_files, .. } => Some(
            "file="@ + shortened(text::opt_text(file_path)) + ", overlays="@ + text::decimal(
                open_files@.len() as int,
            ),
        ),
        QueryRequest::GetCompletions { file_path, .. }
        | QueryRequest::GetHover { file_path, .. }
        | QueryRequest::GetSignatureHelp { file_path, .. }
        | QueryRequest::GotoDefinition { file_path, .. }
        | QueryRequest::GotoImplementation { file_path, .. } => Some(
            "file="@ + shortened(text::opt_text(file_path)),
        ),
        QueryRequest::SearchSymbols { pattern, limit, offset }
        | QueryRequest::SearchClassSymbols { pattern, limit, offset }
        | QueryRequest::GlobalFind { pattern, limit, offset } => Some(
            window(pattern@, limit, offset),
        ),
        QueryRequest::FastFind { scope, .. } => Some(
            "scope="@ + scope_or_project(text::opt_text(scope)),
        ),
        QueryRequest::UnifiedLiveFind {
            pattern,
            limit,
            offset,
            current_file,
            repeated_query,
        } => Some(
            window(pattern@, limit, offset) + " repeated="@ + flag(repeated_query) + " file="@
                + shortened(text::opt_text(current_file)),
        ),
        QueryRequest::SearchCodeText { pattern, limit, offset, scope } => Some(
            window(pattern@, limit, offset) + " scope="@ + scope_or_project(text::opt_text(scope)),
        ),
        QueryRequest::FindSymbolUsages { symbol_name, .. } => Some("symbol="@ + symbol_name@),
        QueryRequest::FindDerivedClasses { base_class } => Some("base_class="@ + base_class@),
        QueryRequest::GetClassMembers { class_name } => Some("class="@ + class_name@),
        QueryRequest::GetAssetUsages { asset_path } => Some("asset="@ + asset_path@),
        QueryRequest::GetAssetUsageHints { names } => Some(
            "names="@ + text::decimal(names@.len() as int),
        ),
        QueryRequest::GetAssetDependencies { asset_path } => Some("asset="@ + asset_path@),
        QueryRequest::GetAssetIndexStatus => Some("project"@),
        _ => None,
    }
}

fn window_text(pattern: &str, limit: usize, offset: usize) -> (r: String)
    ensures
        r@ == window(pattern@, limit, offset),
{
    let a = text::concat3("pattern=", pattern, " limit=");
    let b = text::concat3(&a, &text::decimal_u64(limit as u64), " offset=");
    text::concat2(&b, &text::decimal_u64(offset as u64))
}

fn file_text(file_path: &Option<String>) -> (r: String)
    ensures
        r@ == "file="@ + shortened(text::opt_text(*file_path)),
{
    text::concat2("file=", &short_path(text::opt_str_of(file_path)))
}

fn scope_text(scope: &Option<String>) -> (r: &str)
    ensures
        r@ == scope_or_project(text::opt_text(*scope)),
{
    match scope {
        Some(s) => s.as_str(),
        None => "project",
    }
}

pub fn query_request_detail(request: &QueryRequest) -> (r: Option<String>)
    ensures
        text::opt_text(r) == detail_of(*request),
{
    match request {
        QueryRequest::GetDiagnostics { file_path, open_files, .. } => {
            let a = text::concat2(&file_text(file_path), ", overlays=");
            Some(text::concat2(&a, &text::decimal_u64(open_files.len() as u64)))
        },
        QueryRequest::GetCompletions { file_path, .. } => Some(file_text(file_path)),
        QueryRequest::GetHover { file_path, .. } => Some(file_text(file_path)),
        QueryRequest::GetSignatureHelp { file_path, .. } => Some(file_text(file_path)),
        QueryRequest::GotoDefinition { file_path, .. } => Some(file_text(file_path)),
        QueryRequest::GotoImplementation { file_path, .. } => Some(file_text(file_path)),
        QueryRequest::SearchSymbols { pattern, limit, offset } => Some(
            window_text(pattern, *limit, *offset),
        ),
        QueryRequest::SearchClassSymbols { pattern, limit, offset } => Some(
            window_text(pattern, *limit, *offset),
        ),
        QueryRequest::GlobalFind { pattern, limit, offset } => Some(
            window_text(pattern, *limit, *offset),
        ),
        QueryRequest::FastFind { scope, .. } => Some(text::concat2("scope=", scope_text(scope))),
        QueryRequest::UnifiedLiveFind {
            pattern,
            limit,
            offset,
            current_file,
            repeated_query,
        } => {
            let a = window_text(pattern, *limit, *offset);
            let again = if *repeated_query {
                "true"
            } else {
                "false"
            };
            let b = text::concat3(&a, " repeated=", again);
            let c = short_path(text::opt_str_of(current_file));
            Some(text::concat3(&b, " file=", &c))
        },
        QueryRequest::SearchCodeText { pattern, limit, offset, scope } => {
            let a = window_text(pattern, *limit, *offset);
            Some(text::concat3(&a, " scope=", scope_text(scope)))
        },
        QueryRequest::FindSymbolUsages { symbol_name, .. } => Some(
            text::concat2("symbol=", symbol_name),
        ),
        QueryRequest::FindDerivedClasses { base_class } => Some(
            text::concat2("base_class=", base_class),
        ),
        QueryRequest::GetClassMembers { class_name } => Some(text::concat2("class=", class_name)),
        QueryRequest::GetAssetUsages { asset_path } => Some(text::concat2("asset=", asset_path)),
        QueryRequest::GetAssetUsageHints { names } => Some(
            text::concat2("names=", &text::decimal_u64(names.len() as u64)),
        ),
        QueryRequest::GetAssetDependencies { asset_path } => Some(
            text::concat2("asset=", asset_path),
        ),
        QueryRequest::GetAssetIndexStatus => Some(text::copy_of("project")),
        _ => None,
    }
}

// ---------------------------------------------------------------------------
// Frames
// ---------------------------------------------------------------------------
/// A number in four bytes, the most significant first.
pub open spec fn four_bytes(n: int) -> Seq<u8> {
    seq![
        (n / 16777216 % 256) as u8,
        (n / 65536 % 256) as u8,
        (n / 256 % 256) as u8,
        (n % 256) as u8,
    ]
}

/// The number that four bytes stand for.
pub open spec fn number_of(b: Seq<u8>) -> int {
    b[0] as int * 16777216 + b[1] as int * 65536 + b[2] as int * 256 + b[3] as int
}

/// A message behind its length, of which the lower 32 bits are sent.
pub open spec fn framed(payload: Seq<u8>) -> Seq<u8> {
    four_bytes(payload.len() as int % 4294967296) + payload
}

/// Frames a message.
pub fn frame_message(payload: &[u8]) -> (r: Vec<u8>)
    ensures
        r@ == framed(payload@),
{
    let len: usize = payload.len();
    let n: u64 = len as u64 % 4294967296;
    let mut r: Vec<u8> = Vec::new();
    r.push((n / 16777216 % 256) as u8);
    r.push((n / 65536 % 256) as u8);
    r.push((n / 256 % 256) as u8);
    r.push((n % 256) as u8);
    assert(r@ =~= four_bytes(payload@.len() as int % 4294967296));
    let mut i: usize = 0;
    while i < len
        invariant
            len == payload@.len(),
            i <= len,
            r@ =~= four_bytes(payload@.len() as int % 4294967296) + payload@.take(i as int),
        decreases len - i,
    {
        r.push(payload[i]);
        assert(payload@.take(i + 1) =~= payload@.take(i as int).push(payload@[i as int]));
        i = i + 1;
    }
    assert(payload@.take(len as int) =~= payload@);
    r
}

/// A frame says how long its message is, and holds it.
pub proof fn frame_is_read_back(payload: Seq<u8>)
    requires
        payload.len() < 4294967296,
    ensures
        number_of(framed(payload)) == payload.len(),
        framed(payload).subrange(4, 4 + payload.len() as int) == payload,
{
    let n = payload.len() as int;
    let b = four_bytes(n);
    assert(framed(payload).subrange(4, 4 + n) =~= payload);
    assert(framed(payload)[0] == b[0] && framed(payload)[1] == b[1] && framed(payload)[2] == b[2]
        && framed(payload)[3] == b[3]);
    assert(n / 16777216 % 256 == n / 16777216);
    assert(n / 16777216 * 16777216 + n / 65536 % 256 * 65536 + n / 256 % 256 * 256 + n % 256 == n)
        by (nonlinear_arith)
        requires
            0 <= n < 4294967296,
    ;
}

} // verus!
