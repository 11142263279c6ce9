use chunkworld::coords::ChunkCoordinate;
use chunkworld::manager::plan_tick;
use chunkworld::pipeline::{step, Action, Event, Phase, PipelineTable};

#[test]
fn load_of_stored_chunk_goes_to_remeshing() {
    assert_eq!(step(None, Event::LoadRequested { stored: true }), (Some(Phase::Remeshing), Action::StartRemesh));
    assert_eq!(step(None, Event::LoadRequested { stored: false }), (Some(Phase::Generating), Action::StartGeneration));
}

#[test]
fn generation_then_remesh_then_resident() {
    let (p, a) = step(Some(Phase::Generating), Event::GenerationFinished { ok: true });
    assert_eq!((p, a), (Some(Phase::Remeshing), Action::StartRemesh));
    let (p, a) = step(p, Event::RemeshFinished { ok: true });
    assert_eq!((p, a), (Some(Phase::Resident), Action::PublishMeshes));
    let (p, a) = step(p, Event::Edited);
    assert_eq!((p, a), (Some(Phase::Remeshing), Action::StartRemesh));
}

#[test]
fn failures_are_retried_on_next_load() {
    assert_eq!(step(Some(Phase::Generating), Event::GenerationFinished { ok: false }), (Some(Phase::Failed), Action::ReportFailure));
    assert_eq!(step(Some(Phase::Remeshing), Event::RemeshFinished { ok: false }), (Some(Phase::Failed), Action::ReportFailure));
    assert_eq!(step(Some(Phase::Failed), Event::LoadRequested { stored: true }), (Some(Phase::Remeshing), Action::StartRemesh));
}

#[test]
fn unload_waits_for_tasks() {
    assert_eq!(step(Some(Phase::Generating), Event::UnloadRequested), (Some(Phase::Generating), Action::Nothing));
    assert_eq!(step(Some(Phase::Remeshing), Event::UnloadRequested), (Some(Phase::Remeshing), Action::Nothing));
    assert_eq!(step(Some(Phase::Resident), Event::UnloadRequested), (None, Action::RetractMeshes));
    assert_eq!(step(Some(Phase::Failed), Event::UnloadRequested), (None, Action::RetractMeshes));
}

#[test]
fn table_tracks_each_coordinate_on_its_own() {
    let mut t = PipelineTable::new();
    let a = ChunkCoordinate::new(0, 0, 0);
    let b = ChunkCoordinate::new(1, 0, 0);
    assert_eq!(t.apply(&a, Event::LoadRequested { stored: false }), Action::StartGeneration);
    assert_eq!(t.apply(&b, Event::LoadRequested { stored: true }), Action::StartRemesh);
    assert_eq!(t.phase_of(&a), Some(Phase::Generating));
    assert_eq!(t.phase_of(&b), Some(Phase::Remeshing));
    assert_eq!(t.apply(&b, Event::RemeshFinished { ok: true }), Action::PublishMeshes);
    assert_eq!(t.apply(&b, Event::UnloadRequested), Action::RetractMeshes);
    assert_eq!(t.phase_of(&b), None);
    assert_eq!(t.phase_of(&a), Some(Phase::Generating));
    assert_eq!(t.entries().len(), 1);
}

#[test]
fn first_pass_at_distance_eight_loads_the_whole_box() {
    let t = PipelineTable::new();
    let plan = plan_tick(ChunkCoordinate::new(0, 0, 0), 8, 8, &t);
    assert_eq!(plan.loads.len(), 4913);
    assert_eq!(plan.loads.len(), 17 * 17 * 17);
    assert!(plan.unloads.is_empty());
    for c in plan.loads.iter() {
        assert!(c.x.abs().max(c.z.abs()) <= 8 && c.y.abs() <= 8);
    }
    let mut sorted: Vec<(i32, i32, i32)> = plan.loads.iter().map(|c| (c.x, c.y, c.z)).collect();
    sorted.sort();
    sorted.dedup();
    assert_eq!(sorted.len(), 4913);
}

#[test]
fn render_distances_differ_per_axis() {
    let t = PipelineTable::new();
    let plan = plan_tick(ChunkCoordinate::new(10, -4, 3), 2, 1, &t);
    assert_eq!(plan.loads.len(), 5 * 5 * 3);
    assert!(plan.loads.contains(&ChunkCoordinate::new(12, -3, 1)));
    assert!(!plan.loads.contains(&ChunkCoordinate::new(12, -2, 1)));
}

#[test]
fn pass_unloads_far_idle_chunks_and_skips_tracked_ones() {
    let mut t = PipelineTable::new();
    let near = ChunkCoordinate::new(1, 0, 0);
    let far = ChunkCoordinate::new(20, 0, 0);
    let far_busy = ChunkCoordinate::new(0, 30, 0);
    t.apply(&near, Event::LoadRequested { stored: true });
    t.apply(&near, Event::RemeshFinished { ok: true });
    t.apply(&far, Event::LoadRequested { stored: true });
    t.apply(&far, Event::RemeshFinished { ok: true });
    t.apply(&far_busy, Event::LoadRequested { stored: false });
    let plan = plan_tick(ChunkCoordinate::new(0, 0, 0), 2, 2, &t);
    assert_eq!(plan.unloads, vec![far]);
    assert_eq!(plan.loads.len(), 125 - 1);
    assert!(!plan.loads.contains(&near));
}

#[test]
fn failed_chunks_in_range_are_loaded_again() {
    let mut t = PipelineTable::new();
    let c = ChunkCoordinate::new(0, 0, 0);
    t.apply(&c, Event::LoadRequested { stored: false });
    t.apply(&c, Event::GenerationFinished { ok: false });
    let plan = plan_tick(c, 0, 0, &t);
    assert_eq!(plan.loads, vec![c]);
}
