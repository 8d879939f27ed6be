use bladeink_compiler::hierarchy::{DivertNodeKind, FunctionCallProxyDivert, ParsedNodeKind, SequenceType};
use bladeink_compiler::object::{ObjectKind, ParsedObjectRef};
use bladeink_compiler::path::ParsedPath;

#[test]
fn sequence_type_masks() {
    assert_eq!(SequenceType::Stopping.mask() | SequenceType::Shuffle.mask(), 5);
    assert_eq!(SequenceType::Cycle.mask(), 2);
    assert_eq!(SequenceType::Once.mask(), 8);
}

#[test]
fn function_call_proxy_resolves_by_name() {
    let mut d = FunctionCallProxyDivert::new(ParsedPath::from_dotted("my_func"));
    assert_eq!(d.name(), "my_func");
    assert!(d.resolves_variable_target());
    let target = ParsedObjectRef::new(3, ObjectKind::Knot);
    d.resolve_targets_with(Some(target));
    assert_eq!(d.resolved_target(), Some(target));
    assert!(!d.resolves_variable_target());
    assert_eq!(d.path().as_str(), "my_func");
}

#[test]
fn node_kinds_map_to_object_kinds() {
    assert_eq!(ParsedNodeKind::Text.object_kind(), ObjectKind::Text);
    assert_eq!(ParsedNodeKind::ThreadDivert.object_kind(), ObjectKind::DivertTarget);
    assert_eq!(ParsedNodeKind::GatherLabel.object_kind(), ObjectKind::Gather);
    assert_eq!(DivertNodeKind::Tunnel.parsed_kind(), ParsedNodeKind::TunnelDivert);
    assert_eq!(DivertNodeKind::Thread.parsed_kind(), ParsedNodeKind::ThreadDivert);
}
