use std::collections::HashMap;

use sensor_data::sensors::{index_sensors, MetricType, SensorDefinition, SensorFormat};

fn definition(id: i16, name: &str) -> SensorDefinition {
    let mut labels = HashMap::new();
    labels.insert(String::from("location"), String::from("ws1"));
    SensorDefinition {
        id,
        name: String::from(name),
        format: SensorFormat::Bool,
        destination_queues: vec![format!("/ws/{}/batt", id)],
        metric_name: String::from(name),
        metric_type: MetricType::Gauge,
        metric_labels: labels,
    }
}

#[test]
fn definitions_are_keyed_by_id() {
    let map = index_sensors(vec![definition(1, "ws_1_batt"), definition(2, "ws_2_batt")]);
    assert_eq!(map.len(), 2);
    assert_eq!(map[&1].name, "ws_1_batt");
    assert_eq!(map[&2].name, "ws_2_batt");
    assert_eq!(map[&1].metric_labels["location"], "ws1");
}

#[test]
fn later_definition_with_same_id_wins() {
    let map = index_sensors(vec![
        definition(3, "first"),
        definition(4, "other"),
        definition(3, "second"),
    ]);
    assert_eq!(map.len(), 2);
    assert_eq!(map[&3].name, "second");
    assert_eq!(map[&4].name, "other");
}

#[test]
fn no_definitions() {
    assert!(index_sensors(Vec::new()).is_empty());
}
