//! Map configuration: where one named map's data files live, and the
//! selection of a map by name from the available ones. Reading the
//! directory itself is the caller's job.

use vstd::prelude::*;

use crate::errors::{LoadErrorKind, MapLoadError};

verus! {

/// Paths of one map's data files, keyed by the map's name.
#[derive(Debug)]
pub struct MapConfig {
    pub name: String,
    pub nations_path: String,
    pub provinces_dir: String,
    pub province_mappings_path: String,
}

impl MapConfig {
    /// Lay out the file paths of the map named `name` under `maps_dir`:
    /// the nations file, the province mappings file, and the per-nation
    /// provinces directory.
    pub fn for_map(maps_dir: &String, name: &String) -> (r: MapConfig)
        ensures
            r.name@ == name@,
            r.nations_path@ == maps_dir@ + "/"@ + name@ + "/nations.geojson"@,
            r.province_mappings_path@ == maps_dir@ + "/"@ + name@ + "/provinces.json"@,
            r.provinces_dir@ == maps_dir@ + "/"@ + name@ + "/provinces"@,
    {
        let base = maps_dir.clone().concat("/").concat(name.as_str());
        MapConfig {
            name: name.clone(),
            nations_path: base.clone().concat("/nations.geojson"),
            province_mappings_path: base.clone().concat("/provinces.json"),
            provinces_dir: base.concat("/provinces"),
        }
    }
}

/// Pick the map with the given name out of the available ones; a name
/// no map carries is a read failure naming the map.
pub fn select_map(maps: Vec<MapConfig>, name: &String) -> (r: Result<MapConfig, MapLoadError>)
    ensures
        r is Ok <==> exists|i: int| 0 <= i < maps@.len() && (#[trigger] maps@[i]).name@ == name@,
        match r {
            Ok(m) => m.name@ == name@ && exists|i: int|
                0 <= i < maps@.len() && #[trigger] maps@[i] == m,
            Err(e) => e.kind == LoadErrorKind::MapReadFailure,
        },
{
    let n = maps.len();
    let mut i: usize = 0;
    while i < n
        invariant
            i <= n,
            n == maps@.len(),
            forall|j: int| 0 <= j < i ==> (#[trigger] maps@[j]).name@ != name@,
        decreases n - i,
    {
        if maps.get(i).unwrap().name.eq(name) {
            let mut maps = maps;
            let found = maps.remove(i);
            return Ok(found);
        }
        i = i + 1;
    }
    Err(
        MapLoadError::new(
            LoadErrorKind::MapReadFailure,
            String::from_str("no map of that name in the maps directory"),
        ),
    )
}

} // verus!
