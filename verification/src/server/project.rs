//! The projects that the server knows, and what is going on in them.
use vstd::prelude::*;

use super::path::{normalize_path_key, normalize_to_unix, path_key, unix_path};
use super::registry::Registry;
use crate::text;
use crate::textset::{sorted_set, sorted_strings};

verus! {

pub const SERVER_PROTOCOL_VERSION: u32 = 2;

// ---------------------------------------------------------------------------
// Sets of names
// ---------------------------------------------------------------------------
/// The projects in which something is going on.
pub struct ActiveSet {
    pub names: Vec<String>,
}

impl ActiveSet {
    pub open spec fn view(&self) -> Set<Seq<char>> {
        text::texts(self.names@).to_set()
    }

    pub fn new() -> (r: Self)
        ensures
            r@ == Set::<Seq<char>>::empty(),
    {
        let r = ActiveSet { names: Vec::new() };
        assert(r@ =~= Set::<Seq<char>>::empty());
        r
    }

    pub fn contains(&self, name: &str) -> (r: bool)
        ensures
            r == self@.contains(name@),
    {
        let r = text::list_contains(&self.names, name);
        assert(r == text::texts(self.names@).contains(name@));
        r
    }

    /// Adds a name; false where it is there already.
    pub fn insert(&mut self, name: &str) -> (r: bool)
        ensures
            r == !old(self)@.contains(name@),
            final(self)@ == old(self)@.insert(name@),
    {
        let ghost before = text::texts(self.names@);
        if self.contains(name) {
            assert(self@ =~= old(self)@.insert(name@));
            return false;
        }
        self.names.push(text::copy_of(name));
        proof {
            let after = text::texts(self.names@);
            assert(after =~= before.push(name@));
            assert forall|s: Seq<char>| #[trigger] after.contains(s) <==> before.contains(s) || s
                == name@ by {
                if before.contains(s) {
                    assert(after[before.index_of(s)] == s);
                }
                if s == name@ {
                    assert(after[before.len() as int] == s);
                }
                if after.contains(s) && s != name@ {
                    assert(before[after.index_of(s)] == s);
                }
            }
            assert(self@ =~= old(self)@.insert(name@));
        }
        true
    }

    pub fn remove(&mut self, name: &str)
        ensures
            final(self)@ == old(self)@.remove(name@),
    {
        let ghost before = text::texts(self.names@);
        let n: usize = self.names.len();
        let mut kept: Vec<String> = Vec::new();
        let mut i: usize = 0;
        while i < n
            invariant
                before == text::texts(self.names@),
                n == self.names@.len(),
                i <= n,
                self@ == old(self)@,
                forall|s: Seq<char>|
                    text::texts(kept@).contains(s) <==> s != name@ && before.take(
                        i as int,
                    ).contains(s),
            decreases n - i,
        {
            assert(before[i as int] == self.names@[i as int]@);
            let ghost so_far = text::texts(kept@);
            if !text::same(&self.names[i], name) {
                kept.push(text::copy_of(&self.names[i]));
                assert(text::texts(kept@) =~= so_far.push(before[i as int]));
            }
            proof {
                let now = text::texts(kept@);
                let a = before.take(i as int);
                let b = before.take(i + 1);
                assert(b =~= a.push(before[i as int]));
                assert forall|s: Seq<char>|
                    now.contains(s) <==> s != name@ && b.contains(s) by {
                    assert(so_far.contains(s) <==> s != name@ && a.contains(s));
                    if a.contains(s) {
                        assert(b[a.index_of(s)] == s);
                    }
                    if s == before[i as int] {
                        assert(b[i as int] == s);
                    }
                    if b.contains(s) && s != before[i as int] {
                        assert(a[b.index_of(s)] == s);
                    }
                    if so_far.contains(s) {
                        assert(now[so_far.index_of(s)] == s);
                    }
                    if before[i as int] != name@ {
                        assert(now[so_far.len() as int] == before[i as int]);
                    }
                    if now.contains(s) && s != before[i as int] {
                        assert(so_far[now.index_of(s)] == s);
                    }
                }
            }
            i = i + 1;
        }
        self.names = kept;
        proof {
            assert(before.take(n as int) =~= before);
            assert forall|s: Seq<char>| self@.contains(s) <==> old(self)@.remove(name@).contains(s) by {
                assert(text::texts(self.names@).contains(s) <==> s != name@ && before.contains(s));
            }
            assert(self@ =~= old(self)@.remove(name@));
        }
    }
}

// ---------------------------------------------------------------------------
// Projects
// ---------------------------------------------------------------------------
/// Where a project is indexed.
pub struct ProjectContext {
    pub db_path: String,
    pub cache_db_path: Option<String>,
    pub vcs_hash: Option<String>,
}

pub struct ContextView {
    pub db_path: Seq<char>,
    pub cache_db_path: Option<Seq<char>>,
    pub vcs_hash: Option<Seq<char>>,
}

impl View for ProjectContext {
    type V = ContextView;

    open spec fn view(&self) -> ContextView {
        ContextView {
            db_path: self.db_path@,
            cache_db_path: text::opt_text(self.cache_db_path),
            vcs_hash: text::opt_text(self.vcs_hash),
        }
    }
}

/// The projects by their keys.
pub struct Projects {
    pub contexts: Registry<ProjectContext>,
}

pub open spec fn optional_unix(path: Option<Seq<char>>) -> Option<Seq<char>> {
    match path {
        Some(p) => Some(unix_path(p)),
        None => None,
    }
}

fn to_optional_unix(path: &Option<String>) -> (r: Option<String>)
    ensures
        text::opt_text(r) == optional_unix(text::opt_text(*path)),
{
    match path {
        Some(p) => Some(normalize_to_unix(p)),
        None => None,
    }
}

pub open spec fn not_found(key: Seq<char>) -> Seq<char> {
    "Project not found: "@ + key
}

/// Asks the server to know a project.
pub struct SetupRequest {
    pub project_root: String,
    pub db_path: String,
    pub cache_db_path: Option<String>,
    pub vcs_hash: Option<String>,
}

/// Asks the server to index a project anew.
pub struct RefreshRequest {
    pub project_root: String,
    pub db_path: Option<String>,
    pub cache_db_path: Option<String>,
    pub vcs_hash: Option<String>,
}

/// What a request for a refresh makes of a project that is known.
pub open spec fn refreshed(c: ContextView, req: RefreshRequest) -> ContextView {
    ContextView {
        db_path: c.db_path,
        cache_db_path: match req.cache_db_path {
            Some(p) => Some(unix_path(p@)),
            None => c.cache_db_path,
        },
        vcs_hash: text::opt_text(req.vcs_hash),
    }
}

impl Projects {
    pub open spec fn view(&self) -> Map<Seq<char>, ContextView> {
        self.contexts@.map_values(|c: ProjectContext| c@)
    }

    pub open spec fn well_formed(self) -> bool {
        self.contexts.well_formed()
    }

    pub fn new() -> (r: Self)
        ensures
            r.well_formed(),
            r@ == Map::<Seq<char>, ContextView>::empty(),
    {
        let r = Projects { contexts: Registry::new() };
        assert(r@ =~= Map::<Seq<char>, ContextView>::empty());
        r
    }

    fn put(&mut self, key: &str, context: ProjectContext)
        requires
            old(self).well_formed(),
        ensures
            final(self).well_formed(),
            final(self)@ == old(self)@.insert(key@, context@),
    {
        self.contexts.insert(key, context);
        assert(self@ =~= old(self)@.insert(key@, context@));
    }

    /// Forgets a project.
    pub fn handle_delete_project(&mut self, project_root: &str) -> (r: Result<(), String>)
        requires
            old(self).well_formed(),
        ensures
            final(self).well_formed(),
            final(self)@ == old(self)@.remove(path_key(project_root@)),
            match r {
                Ok(_) => old(self)@.dom().contains(path_key(project_root@)),
                Err(e) => !old(self)@.dom().contains(path_key(project_root@)) && e@ == not_found(
                    path_key(project_root@),
                ),
            },
    {
        let key = normalize_path_key(project_root);
        let removed = self.contexts.remove(&key);
        assert(self@ =~= old(self)@.remove(key@));
        match removed {
            Some(_) => Ok(()),
            None => Err(text::concat2("Project not found: ", &key)),
        }
    }

    /// Knows a project from now on.
    pub fn handle_setup(&mut self, req: &SetupRequest)
        requires
            old(self).well_formed(),
        ensures
            final(self).well_formed(),
            final(self)@ == old(self)@.insert(
                path_key(req.project_root@),
                ContextView {
                    db_path: unix_path(req.db_path@),
                    cache_db_path: optional_unix(text::opt_text(req.cache_db_path)),
                    vcs_hash: text::opt_text(req.vcs_hash),
                },
            ),
    {
        let key = normalize_path_key(&req.project_root);
        let context = ProjectContext {
            db_path: normalize_to_unix(&req.db_path),
            cache_db_path: to_optional_unix(&req.cache_db_path),
            vcs_hash: text::copy_opt(&req.vcs_hash),
        };
        self.put(&key, context);
    }

    /// What is known of a project.
    pub fn get_project_context(&self, root_key: &str) -> (r: Result<ProjectContext, String>)
        ensures
            match r {
                Ok(c) => self@.dom().contains(root_key@) && c@ == self@[root_key@],
                Err(e) => !self@.dom().contains(root_key@) && e@ == not_found(root_key@),
            },
    {
        match self.contexts.get(root_key) {
            None => Err(text::concat2("Project not found: ", root_key)),
            Some(c) => Ok(
                ProjectContext {
                    db_path: text::copy_of(&c.db_path),
                    cache_db_path: text::copy_opt(&c.cache_db_path),
                    vcs_hash: text::copy_opt(&c.vcs_hash),
                },
            ),
        }
    }

    /// Takes note of a refresh, and says where the project is indexed. A project that is not
    /// known is only refreshed where the request says where.
    pub fn upsert_refresh_project_context(&mut self, req: &RefreshRequest) -> (r: Result<String, String>)
        requires
            old(self).well_formed(),
        ensures
            final(self).well_formed(),
            ({
                let key = path_key(req.project_root@);
                match req.db_path {
                    Some(p) => r is Ok && r->Ok_0@ == unix_path(p@) && final(self)@ == old(
                        self,
                    )@.insert(
                        key,
                        ContextView {
                            db_path: unix_path(p@),
                            cache_db_path: optional_unix(text::opt_text(req.cache_db_path)),
                            vcs_hash: text::opt_text(req.vcs_hash),
                        },
                    ),
                    None => match r {
                        Ok(p) => old(self)@.dom().contains(key) && p@ == old(self)@[key].db_path
                            && final(self)@ == old(self)@.insert(
                            key,
                            refreshed(old(self)@[key], *req),
                        ),
                        Err(e) => !old(self)@.dom().contains(key) && e@ == not_found(key)
                            && final(self)@ == old(self)@,
                    },
                }
            }),
    {
        let key = normalize_path_key(&req.project_root);
        match &req.db_path {
            Some(p) => {
                let db_path = normalize_to_unix(p);
                let context = ProjectContext {
                    db_path: text::copy_of(&db_path),
                    cache_db_path: to_optional_unix(&req.cache_db_path),
                    vcs_hash: text::copy_opt(&req.vcs_hash),
                };
                self.put(&key, context);
                Ok(db_path)
            },
            None => match self.get_project_context(&key) {
                Err(e) => Err(e),
                Ok(c) => {
                    let db_path = text::copy_of(&c.db_path);
                    let context = ProjectContext {
                        db_path: c.db_path,
                        cache_db_path: match &req.cache_db_path {
                            Some(p) => Some(normalize_to_unix(p)),
                            None => c.cache_db_path,
                        },
                        vcs_hash: text::copy_opt(&req.vcs_hash),
                    };
                    self.put(&key, context);
                    Ok(db_path)
                },
            },
        }
    }

    /// The keys of the projects.
    pub fn list_projects(&self) -> (r: Vec<String>)
        ensures
            forall|k: Seq<char>|
                self@.dom().contains(k) <==> #[trigger] text::texts(r@).contains(k),
    {
        let r = self.contexts.keys();
        assert forall|k: Seq<char>|
            self@.dom().contains(k) <==> #[trigger] text::texts(r@).contains(k) by {
            assert(self.contexts@.dom().contains(k) <==> text::texts(r@).contains(k));
        }
        r
    }
}

// ---------------------------------------------------------------------------
// Refreshes and clients
// ---------------------------------------------------------------------------
/// Begins a refresh; only one goes on in a project at a time.
pub fn begin_refresh(active: &mut ActiveSet, root_key: &str) -> (r: Result<(), String>)
    ensures
        final(active)@ == old(active)@.insert(root_key@),
        match r {
            Ok(_) => !old(active)@.contains(root_key@),
            Err(e) => old(active)@.contains(root_key@) && e@ == "Refresh already in progress"@,
        },
{
    if active.insert(root_key) {
        Ok(())
    } else {
        Err(text::copy_of("Refresh already in progress"))
    }
}

/// Ends a refresh.
pub fn end_refresh(active: &mut ActiveSet, root_key: &str)
    ensures
        final(active)@ == old(active)@.remove(root_key@),
{
    active.remove(root_key);
}

pub fn is_refreshing(active: &ActiveSet, root_key: &str) -> (r: bool)
    ensures
        r == active@.contains(root_key@),
{
    active.contains(root_key)
}

/// Once a refresh has ended, another may begin, and the other projects are as they were.
pub proof fn refresh_can_follow_refresh(active: Set<Seq<char>>, key: Seq<char>, other: Seq<char>)
    ensures
        !active.insert(key).remove(key).contains(key),
        other != key ==> active.insert(key).remove(key).contains(other) == active.contains(other),
{
}

/// Takes note of a client.
pub fn register_client(clients: &mut Vec<u32>, pid: u32)
    ensures
        final(clients)@ == if old(clients)@.contains(pid) {
            old(clients)@
        } else {
            old(clients)@.push(pid)
        },
{
    let n: usize = clients.len();
    let mut i: usize = 0;
    while i < n
        invariant
            clients@ == old(clients)@,
            n == clients@.len(),
            i <= n,
            forall|j: int| 0 <= j < i ==> clients@[j] != pid,
        decreases n - i,
    {
        if clients[i] == pid {
            assert(clients@[i as int] == pid);
            return ;
        }
        i = i + 1;
    }
    clients.push(pid);
}

/// The name of a build of the server.
pub fn build_id(server_version: &str) -> (r: String)
    ensures
        r@ == server_version@ + "-p"@ + text::decimal(SERVER_PROTOCOL_VERSION as int),
{
    text::concat3(server_version, "-p", &text::decimal_u64(SERVER_PROTOCOL_VERSION as u64))
}

// ---------------------------------------------------------------------------
// Setting up
// ---------------------------------------------------------------------------
/// What a project still needs before it can be used.
#[derive(Clone, Copy, PartialEq, Eq, Structural, Debug)]
pub struct SetupReadiness {
    pub needs_full_refresh: bool,
    pub needs_asset_index: bool,
}

/// What a project still needs: an index of its code where that was made anew or is empty, and an
/// index of its assets unless it is an engine.
pub fn ensure_database_ready(
    reinitialized: bool,
    file_count: i64,
    class_count: i64,
    engine_root: bool,
    asset_ready: bool,
) -> (r: SetupReadiness)
    ensures
        r.needs_full_refresh == (reinitialized || file_count == 0 || class_count == 0),
        r.needs_asset_index == (!r.needs_full_refresh && !engine_root && !asset_ready),
{
    if reinitialized || file_count == 0 || class_count == 0 {
        return SetupReadiness { needs_full_refresh: true, needs_asset_index: false };
    }
    if engine_root {
        return SetupReadiness { needs_full_refresh: false, needs_asset_index: false };
    }
    SetupReadiness { needs_full_refresh: false, needs_asset_index: !asset_ready }
}

/// What came of a change to a file.
pub struct ModifyResult {
    pub success: bool,
    pub message: Option<String>,
}

pub fn modify_result(result: Result<(), String>) -> (r: ModifyResult)
    ensures
        r.success == (result is Ok),
        text::opt_text(r.message) == match result {
            Ok(_) => None,
            Err(e) => Some(e@),
        },
{
    match result {
        Ok(_) => ModifyResult { success: true, message: None },
        Err(e) => ModifyResult { success: false, message: Some(e) },
    }
}

/// The store that scanned files are written to: that of the first of them.
pub fn scan_db_path(db_paths: &Vec<Option<String>>) -> (r: Result<String, String>)
    ensures
        match r {
            Ok(p) => db_paths@.len() > 0 && text::opt_text(db_paths@[0]) == Some(p@),
            Err(e) => (db_paths@.len() == 0 || db_paths@[0] is None) && e@ == "No DB path"@,
        },
{
    if db_paths.len() > 0 {
        match &db_paths[0] {
            Some(p) => {
                return Ok(text::copy_of(p));
            },
            None => {},
        }
    }
    Err(text::copy_of("No DB path"))
}

// ---------------------------------------------------------------------------
// Files of assets
// ---------------------------------------------------------------------------
/// The asset's path within the project, without its extension.
pub open spec fn relative_asset(asset_path: Seq<char>) -> Seq<char> {
    match text::find(asset_path, "/Game/"@) {
        Some(at) => asset_path.take(at) + "Content/"@ + asset_path.subrange(
            at + "/Game/"@.len(),
            asset_path.len() as int,
        ),
        None => asset_path,
    }
}

pub fn relative_asset_path(asset_path: &str) -> (r: String)
    ensures
        r@ == relative_asset(asset_path@),
{
    proof {
        reveal_strlit("/Game/");
    }
    match text::find_text(asset_path, "/Game/") {
        Some(at) => {
            let v = text::chars_of(asset_path);
            let n: usize = v.len();
            let head = text::string_of(vstd::slice::slice_subrange(v.as_slice(), 0, at));
            let tail = text::string_of(vstd::slice::slice_subrange(v.as_slice(), at + 6, n));
            text::concat3(&head, "Content/", &tail)
        },
        None => text::copy_of(asset_path),
    }
}

/// The file is that of the asset.
pub open spec fn holds_asset(name: Seq<char>, path: Seq<char>, asset_path: Seq<char>) -> bool {
    let relative = relative_asset(asset_path);
    let base = text::last_part(relative, '/');
    (name == base + ".uasset"@ || name == base + ".umap"@) && text::has(unix_path(path), relative)
}

/// The first of the files, by name and path, that is that of the asset.
pub open spec fn asset_file_from(files: Seq<(Seq<char>, Seq<char>)>, asset_path: Seq<char>, k: int) -> Option<
    int,
>
    decreases files.len() - k,
{
    if k < 0 || k >= files.len() {
        None
    } else if holds_asset(files[k].0, files[k].1, asset_path) {
        Some(k)
    } else {
        asset_file_from(files, asset_path, k + 1)
    }
}

pub open spec fn file_views(v: Seq<(String, String)>) -> Seq<(Seq<char>, Seq<char>)> {
    v.map_values(|f: (String, String)| (f.0@, f.1@))
}

/// Finds the file of an asset among files given by name and path.
pub fn find_asset_file(files: &Vec<(String, String)>, asset_path: &str) -> (r: Option<usize>)
    ensures
        match r {
            Some(i) => i < files@.len() && asset_file_from(file_views(files@), asset_path@, 0)
                == Some(i as int),
            None => asset_file_from(file_views(files@), asset_path@, 0) is None,
        },
{
    let ghost list = file_views(files@);
    let relative = relative_asset_path(asset_path);
    let base = text::last_part_of(&relative, '/');
    let uasset = text::concat2(base, ".uasset");
    let umap = text::concat2(base, ".umap");
    let n: usize = files.len();
    let mut i: usize = 0;
    while i < n
        invariant
            list == file_views(files@),
            relative@ == relative_asset(asset_path@),
            base@ == text::last_part(relative@, '/'),
            uasset@ == base@ + ".uasset"@,
            umap@ == base@ + ".umap"@,
            n == files@.len(),
            i <= n,
            asset_file_from(list, asset_path@, 0) == asset_file_from(list, asset_path@, i as int),
        decreases n - i,
    {
        assert(list[i as int] == (files@[i as int].0@, files@[i as int].1@));
        let name = &files[i].0;
        if (text::same(name, &uasset) || text::same(name, &umap)) && text::contains_text(
            &normalize_to_unix(&files[i].1),
            &relative,
        ) {
            return Some(i);
        }
        i = i + 1;
    }
    None
}

/// A directory that is not searched for the file of an asset.
pub fn skips_asset_directory(name: &str) -> (r: bool)
    ensures
        r == (name@ == "Intermediate"@ || name@ == "Binaries"@ || name@ == "Build"@ || name@
            == "Saved"@),
{
    text::same(name, "Intermediate") || text::same(name, "Binaries") || text::same(name, "Build")
        || text::same(name, "Saved")
}

/// What an asset depends on.
pub struct AssetDependencies {
    pub dependencies: Vec<String>,
    pub parent_class: Option<String>,
}

/// What an asset depends on, from what its file imports; there is no file for what is in code.
pub fn get_asset_dependencies(
    asset_path: &str,
    file: Option<(Vec<String>, Option<String>)>,
) -> (r: AssetDependencies)
    ensures
        if text::starts(asset_path@, "/Script/"@) || file is None {
            r.dependencies@.len() == 0 && r.parent_class is None
        } else {
            text::texts(r.dependencies@) == sorted_set(text::texts((file->0).0@))
                && text::opt_text(r.parent_class) == text::opt_text((file->0).1)
        },
{
    if text::starts_with(asset_path, "/Script/") {
        return AssetDependencies { dependencies: Vec::new(), parent_class: None };
    }
    match file {
        None => AssetDependencies { dependencies: Vec::new(), parent_class: None },
        Some(f) => AssetDependencies { dependencies: sorted_strings(&f.0), parent_class: f.1 },
    }
}

} // verus!
