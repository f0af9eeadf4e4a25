//! Sensor definitions, the values that sensors report, and the index of definitions by id.

use std::collections::HashMap;
use vstd::prelude::*;

verus! {

broadcast use vstd::std_specs::hash::group_hash_axioms;

/// How a sensor encodes its value.
#[derive(Debug, PartialEq)]
pub enum SensorFormat {
    Bool,
    /// Limited in range from -128.99 to 127.99.
    TwoByteFloat,
    /// Limited in range from 0 to 255.
    SingleByteInt,
    /// Limited in range from 0 to 65535.
    TwoByteInt,
    /// Limited in range from 0 to 4294967295.
    FourByteInt,
}

/// The kind of metric a sensor's values are published as.
#[derive(Debug, PartialEq)]
pub enum MetricType {
    Gauge,
    Counter,
    Histogram,
    Summary,
}

/// How a sensor is identified, decoded and published.
#[derive(Debug, PartialEq)]
pub struct SensorDefinition {
    pub id: i16,
    pub name: String,
    pub format: SensorFormat,
    pub destination_queues: Vec<String>,
    pub metric_name: String,
    pub metric_type: MetricType,
    pub metric_labels: HashMap<String, String>,
}

/// One value reported by a sensor, as text.
#[derive(Debug, PartialEq)]
pub struct SensorValue {
    pub id: i16,
    pub timestamp: u64,
    pub value: String,
}

/// A wind speed and direction reading.
#[derive(Debug, PartialEq)]
pub struct WindSpeedDirValue {
    pub timestamp: u64,
    pub location: i16,
    pub speed: i16,
    pub dir: i16,
}

/// A particulate matter reading.
#[derive(Debug, PartialEq)]
pub struct AirParticulateValue {
    pub timestamp: u64,
    pub location: i16,
    pub pm2_5: i16,
    pub pm10: i16,
}

/// The definitions keyed by id, entered in order: a later definition with the same id replaces
/// an earlier one.
pub open spec fn sensor_index(defs: Seq<SensorDefinition>) -> Map<i16, SensorDefinition>
    decreases defs.len(),
{
    if defs.len() == 0 {
        Map::empty()
    } else {
        sensor_index(defs.drop_last()).insert(defs.last().id, defs.last())
    }
}

/// Keys the definitions by their id; where two share an id, the later one is kept.
pub fn index_sensors(defs: Vec<SensorDefinition>) -> (res: HashMap<i16, SensorDefinition>)
    ensures
        res@ == sensor_index(defs@),
{
    let ghost all = defs@;
    let mut map: HashMap<i16, SensorDefinition> = HashMap::new();
    for def in it: defs
        invariant
            it.seq() == all,
            map@ == sensor_index(all.take(it.index() as int)),
    {
        proof {
            assert(all.take(it.index() + 1).drop_last() =~= all.take(it.index() as int));
        }
        map.insert(def.id, def);
    }
    proof {
        assert(all.take(all.len() as int) =~= all);
    }
    map
}

/// The index holds exactly the ids of the definitions, each under its own id, and an id that
/// occurs more than once maps to the last definition that carries it.
pub proof fn lemma_sensor_index_keeps_last(defs: Seq<SensorDefinition>)
    ensures
        forall|k: i16|
            sensor_index(defs).contains_key(k) <==> exists|i: int|
                0 <= i < defs.len() && #[trigger] defs[i].id == k,
        forall|k: i16| #[trigger]
            sensor_index(defs).contains_key(k) ==> sensor_index(defs)[k].id == k,
        forall|i: int|
            0 <= i < defs.len() && (forall|j: int| i < j < defs.len() ==> defs[j].id != defs[i].id)
                ==> sensor_index(defs)[#[trigger] defs[i].id] == defs[i],
    decreases defs.len(),
{
    if defs.len() > 0 {
        let init = defs.drop_last();
        lemma_sensor_index_keeps_last(init);
        assert forall|k: i16|
            sensor_index(defs).contains_key(k) implies exists|i: int|
                0 <= i < defs.len() && #[trigger] defs[i].id == k by {
            if k != defs.last().id {
                let i = choose|i: int| 0 <= i < init.len() && #[trigger] init[i].id == k;
                assert(defs[i].id == k);
            } else {
                assert(defs[defs.len() - 1].id == k);
            }
        }
        assert forall|k: i16|
            (exists|i: int| 0 <= i < defs.len() && #[trigger] defs[i].id == k) implies sensor_index(
                defs,
            ).contains_key(k) by {
            let i = choose|i: int| 0 <= i < defs.len() && #[trigger] defs[i].id == k;
            if i < defs.len() - 1 {
                assert(init[i].id == k);
            }
        }
        assert forall|i: int|
            0 <= i < defs.len() && (forall|j: int| i < j < defs.len() ==> defs[j].id != defs[i].id)
                implies sensor_index(defs)[#[trigger] defs[i].id] == defs[i] by {
            if i < defs.len() - 1 {
                assert(defs[defs.len() - 1].id != defs[i].id);
                assert(init[i] == defs[i]);
                assert forall|j: int| i < j < init.len() implies init[j].id != init[i].id by {
                    assert(init[j] == defs[j]);
                }
            }
        }
    }
}

} // verus!
