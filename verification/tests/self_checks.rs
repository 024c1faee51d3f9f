use kernel::desktop::compositor::{Compositor, BACKGROUND};
use kernel::desktop::window_server::WindowServer;
use kernel::gnosis;
use kernel::gnosis::delta::SemanticDelta;
use kernel::gnosis::relation::{ProvenanceSource, RelationProvenance};
use kernel::gnosis::semantic;
use kernel::gnosis::subconscious::{self, SubconsciousEngine};
use kernel::gnosis::{conscious, graph, messaging, orchestration, query, relation, speculation, transition};
use kernel::memory::{MemoryRegion, MemoryRegionKind, PhysicalMemory};

#[test]
fn subconscious_self_test_passes() {
    assert!(subconscious::self_test());
}

#[test]
fn local_cognitive_loop_gtest_passes() {
    assert!(orchestration::local_cognitive_loop_gtest());
}

#[test]
fn orchestration_self_test_passes() {
    assert!(orchestration::self_test());
}

#[test]
fn conscious_self_test_passes() {
    assert!(conscious::self_test());
}

#[test]
fn transition_self_test_passes() {
    assert!(transition::self_test());
}

#[test]
fn speculation_self_test_passes() {
    assert!(speculation::self_test());
}

#[test]
fn gnosis_self_test_passes() {
    assert!(gnosis::self_test());
}

fn local_delta(object_id: u64, timestamp: u64) -> SemanticDelta {
    SemanticDelta {
        object_id,
        semantic_id: semantic::CAUSES,
        previous_state: semantic::PENDING,
        new_state: semantic::COMPLETE,
        context: 5,
        timestamp,
        provenance: RelationProvenance { origin: object_id, source: ProvenanceSource::Local, revision: timestamp },
    }
}

#[test]
fn a_repeated_delta_in_one_batch_is_a_duplicate() {
    let mut engine = SubconsciousEngine::new();
    let d = local_delta(90, 3);
    let report = subconscious::process(&mut engine, &[d, d, local_delta(90, 4)]);
    assert_eq!(report.valid_observations, 3);
    assert_eq!(report.duplicate_observations, 1);
    let again = subconscious::process(&mut engine, &[local_delta(90, 4)]);
    assert_eq!(again.duplicate_observations, 1);
    let fresh = subconscious::process(&mut engine, &[local_delta(90, 5)]);
    assert_eq!(fresh.duplicate_observations, 0);
}

#[test]
fn a_window_wider_than_the_screen_paints_to_the_screen_edge() {
    let mut server = WindowServer::new(800, 600);
    server.create_window(-10, 0, 1000, 10, "wide");
    let mut compositor = Compositor::new(800, 600);
    compositor.composite(&server);
    let frame = compositor.framebuffer();
    for x in 790..800usize {
        assert_eq!(frame[x], 0, "column {x}");
    }
    assert_eq!(frame[20 * 800 + 795], BACKGROUND);
}

#[test]
fn a_window_past_the_left_edge_stops_at_its_own_width() {
    let mut server = WindowServer::new(800, 600);
    server.create_window(-10, 0, 100, 10, "narrow");
    let mut compositor = Compositor::new(800, 600);
    compositor.composite(&server);
    let frame = compositor.framebuffer();
    assert_eq!(frame[89], 0);
    assert_eq!(frame[90], BACKGROUND);
}

#[test]
fn query_self_test_passes() {
    assert!(query::self_test());
}

#[test]
fn graph_self_test_passes() {
    assert!(graph::self_test());
}

#[test]
fn messaging_self_test_passes() {
    assert!(messaging::self_test());
}

#[test]
fn memory_self_test_passes_once_initialized() {
    let mut memory = PhysicalMemory::new();
    assert!(!memory.self_test());
    let regions = [MemoryRegion { start: 0x100000, end: 0x110000, kind: MemoryRegionKind::Usable }];
    memory.init(&regions);
    assert!(memory.self_test());
    assert_eq!(memory.allocated_frames(), 0);
}

#[test]
fn a_frame_in_use_is_not_handed_out_again() {
    let mut memory = PhysicalMemory::new();
    let regions = [MemoryRegion { start: 0x100000, end: 0x104000, kind: MemoryRegionKind::Usable }];
    memory.init(&regions);
    let a = memory.allocate_frame().unwrap();
    let b = memory.allocate_frame().unwrap();
    assert_ne!(a, b);
    assert!(memory.free_frame(a));
    assert_eq!(memory.allocate_frame(), Some(a));
    let c = memory.allocate_frame().unwrap();
    assert!(c != a && c != b);
}

#[test]
fn relation_self_test_passes() {
    assert!(relation::self_test());
}
