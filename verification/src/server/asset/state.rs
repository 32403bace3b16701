//! The graphs of the projects whose assets are known.
use vstd::prelude::*;

use super::graph::{
    asset_usage_hints_from_graph, asset_usages_from_graph, hint_views, hints_from,
    merge_derived_classes, update_single_asset, usages, with_assets, with_record, without_asset,
    AssetGraph, AssetUsages, GraphView, UsageHint,
};
use super::record::{asset_path_of, to_asset_path, AssetRecord};
use crate::query::item::{items, Item};
use crate::server::path::{normalize_path_key, path_key};
use crate::server::registry::Registry;
use crate::text;

verus! {

/// The graphs by the keys of their projects.
pub struct AssetGraphs {
    pub graphs: Registry<AssetGraph>,
}

impl AssetGraphs {
    pub open spec fn view(&self) -> Map<Seq<char>, GraphView> {
        self.graphs@.map_values(|g: AssetGraph| g@)
    }

    pub open spec fn well_formed(self) -> bool {
        self.graphs.well_formed()
    }

    pub fn new() -> (r: Self)
        ensures
            r.well_formed(),
            r@ == Map::<Seq<char>, GraphView>::empty(),
    {
        let r = AssetGraphs { graphs: Registry::new() };
        assert(r@ =~= Map::<Seq<char>, GraphView>::empty());
        r
    }

    /// The graph of the project is there.
    pub fn ensure_asset_graph_state(&self, project_root: &str) -> (r: bool)
        ensures
            r == self@.dom().contains(path_key(project_root@)),
    {
        self.graphs.get(&normalize_path_key(project_root)).is_some()
    }

    /// Takes the graph of a project.
    pub fn populate_asset_graph_state(&mut self, project_root: &str, graph: AssetGraph)
        requires
            old(self).well_formed(),
        ensures
            final(self).well_formed(),
            final(self)@ == old(self)@.insert(path_key(project_root@), graph@),
    {
        let key = normalize_path_key(project_root);
        self.graphs.insert(&key, graph);
        assert(self@ =~= old(self)@.insert(key@, graph@));
    }

    /// What a changed file makes of the graph of its project, where that is there.
    pub fn update_asset_in_state(
        &mut self,
        project_root: &str,
        record: Option<AssetRecord>,
        file_path: &str,
    )
        requires
            old(self).well_formed(),
        ensures
            final(self).well_formed(),
            ({
                let key = path_key(project_root@);
                final(self)@ == if old(self)@.dom().contains(key) {
                    old(self)@.insert(
                        key,
                        match record {
                            Some(r) => with_record(
                                without_asset(old(self)@[key], r@.asset_path),
                                r@,
                            ),
                            None => without_asset(old(self)@[key], asset_path_of(file_path@)),
                        },
                    )
                } else {
                    old(self)@
                }
            }),
    {
        let key = normalize_path_key(project_root);
        let asset_path = to_asset_path(file_path);
        match self.graphs.remove(&key) {
            Some(graph) => {
                let mut graph = graph;
                update_single_asset(&mut graph, record, &asset_path);
                self.graphs.insert(&key, graph);
                assert(self@ =~= old(self)@.insert(key@, graph@));
            },
            None => {
                assert(self@ =~= old(self)@);
            },
        }
    }

    /// Takes the asset of a file that is gone out of the graph of its project.
    pub fn remove_single_asset_from_state(&mut self, project_root: &str, file_path: &str)
        requires
            old(self).well_formed(),
        ensures
            final(self).well_formed(),
            ({
                let key = path_key(project_root@);
                final(self)@ == if old(self)@.dom().contains(key) {
                    old(self)@.insert(
                        key,
                        without_asset(old(self)@[key], asset_path_of(file_path@)),
                    )
                } else {
                    old(self)@
                }
            }),
    {
        self.update_asset_in_state(project_root, None, file_path);
    }

    /// The assets that use something; none where the graph of the project is not there.
    pub fn get_asset_usages_from_state(&self, project_root: &str, asset_path: &str) -> (r: Option<AssetUsages>)
        ensures
            match r {
                Some(u) => self@.dom().contains(path_key(project_root@)) && u@ == usages(
                    self@[path_key(project_root@)],
                    asset_path@,
                ),
                None => !self@.dom().contains(path_key(project_root@)),
            },
    {
        match self.graphs.get(&normalize_path_key(project_root)) {
            Some(graph) => Some(asset_usages_from_graph(graph, asset_path)),
            None => None,
        }
    }

    /// How many assets use each name; none where the graph of the project is not there.
    pub fn get_asset_usage_hints_from_state(&self, project_root: &str, names: &Vec<String>) -> (r: Option<
        Vec<UsageHint>,
    >)
        ensures
            match r {
                Some(h) => self@.dom().contains(path_key(project_root@)) && hint_views(h@)
                    == hints_from(self@[path_key(project_root@)], text::texts(names@), 0),
                None => !self@.dom().contains(path_key(project_root@)),
            },
    {
        match self.graphs.get(&normalize_path_key(project_root)) {
            Some(graph) => Some(asset_usage_hints_from_graph(graph, names)),
            None => None,
        }
    }

    /// Adds the assets that derive from a class; false where the graph of the project is not
    /// there.
    pub fn merge_derived_classes_from_state(
        &self,
        project_root: &str,
        base_class: &str,
        results: &mut Vec<Item>,
    ) -> (r: bool)
        ensures
            r == self@.dom().contains(path_key(project_root@)),
            items(final(results)@) == if r {
                with_assets(
                    items(old(results)@),
                    usages(self@[path_key(project_root@)], base_class@).derived,
                    0,
                )
            } else {
                items(old(results)@)
            },
    {
        match self.graphs.get(&normalize_path_key(project_root)) {
            Some(graph) => {
                merge_derived_classes(graph, base_class, results);
                true
            },
            None => false,
        }
    }
}

} // verus!
