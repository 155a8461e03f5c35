use cellsheet::cell::{Cell, CellValue};
use cellsheet::evaluator::{evaluate_tick, tick_evaluation_system, EvaluationTimer, TickControl};
use cellsheet::formula::{build_context, coord_to_name, evaluate_formula, name_to_coord};
use cellsheet::gpu_cell::GpuCell;
use cellsheet::grid_state::{coord_key, GridState};
use cellsheet::svg_renderer::{complete_request, SvgRenderRequest, SvgRenderer};

#[test]
fn name_round_trip_on_a_range() {
    for col in 0..60 {
        for row in 0..40 {
            let name = coord_to_name(col, row);
            assert_eq!(name_to_coord(name.as_str()), Some((col, row)));
        }
    }
    // Larger coordinates, including multi-letter columns.
    for &(col, row) in &[(702, 0), (703, 99), (18277, 12345), (i32::MAX, i32::MAX)] {
        let name = coord_to_name(col, row);
        assert_eq!(name_to_coord(name.as_str()), Some((col, row)));
    }
}

#[test]
fn name_to_coord_rejects_non_names() {
    assert_eq!(name_to_coord(""), None);
    assert_eq!(name_to_coord("A"), None);
    assert_eq!(name_to_coord("15"), None);
    assert_eq!(name_to_coord("A-5"), None);
    assert_eq!(name_to_coord("a5"), None);
    assert_eq!(name_to_coord("A5B"), None);
    assert_eq!(name_to_coord("A 5"), None);
    // A row too large for i32.
    assert_eq!(name_to_coord("A2147483648"), None);
    assert_eq!(name_to_coord("A2147483647"), Some((0, i32::MAX)));
}

#[test]
fn single_tick_snapshot_semantics() {
    let mut grid = GridState::new();
    grid.set_raw_at(0, 0, "5".to_string());
    grid.set_raw_at(1, 0, "=A0+1".to_string());
    // First tick: A0 becomes 5; B0 still saw the pre-tick A0 of 0.
    evaluate_tick(&mut grid);
    assert_eq!(grid.get_cell(0, 0).unwrap().value, CellValue::Int(5));
    assert_eq!(grid.get_cell(1, 0).unwrap().value, CellValue::Int(1));
    // Change A0's text before the next pass runs: B0 must still use A0's
    // pre-tick value 5, even though A0 updates to 15 in the same pass.
    grid.set_raw_at(0, 0, "=A0+10".to_string());
    evaluate_tick(&mut grid);
    assert_eq!(grid.get_cell(0, 0).unwrap().value, CellValue::Int(15));
    assert_eq!(grid.get_cell(1, 0).unwrap().value, CellValue::Int(6));
}

#[test]
fn multi_tick_propagation() {
    let mut grid = GridState::new();
    grid.set_raw_at(0, 0, "1".to_string());
    grid.set_raw_at(1, 0, "=A0+1".to_string());
    grid.set_raw_at(2, 0, "=B0+1".to_string());
    evaluate_tick(&mut grid);
    evaluate_tick(&mut grid);
    evaluate_tick(&mut grid);
    assert_eq!(grid.get_cell(2, 0).unwrap().value, CellValue::Int(3));
    // Change A0; the chain end only reflects it two ticks later.
    grid.set_raw_at(0, 0, "5".to_string());
    evaluate_tick(&mut grid);
    // A0 updated, B0 and C0 still computed from pre-change values.
    assert_eq!(grid.get_cell(0, 0).unwrap().value, CellValue::Int(5));
    assert_eq!(grid.get_cell(2, 0).unwrap().value, CellValue::Int(3));
    evaluate_tick(&mut grid);
    // B0 now sees the new A0; C0 still sees the old B0.
    assert_eq!(grid.get_cell(1, 0).unwrap().value, CellValue::Int(6));
    assert_eq!(grid.get_cell(2, 0).unwrap().value, CellValue::Int(3));
    evaluate_tick(&mut grid);
    assert_eq!(grid.get_cell(2, 0).unwrap().value, CellValue::Int(7));
}

#[test]
fn error_isolation_division_by_zero() {
    let mut grid = GridState::new();
    grid.set_raw_at(0, 0, "=1/0".to_string());
    grid.set_raw_at(1, 0, "42".to_string());
    grid.set_raw_at(2, 0, "=B0+1".to_string());
    evaluate_tick(&mut grid);
    let bad = grid.get_cell(0, 0).unwrap();
    assert!(bad.error);
    assert_eq!(bad.value, CellValue::Int(0));
    // Sibling cells still updated in the same tick.
    let lit = grid.get_cell(1, 0).unwrap();
    assert!(!lit.error);
    assert_eq!(lit.value, CellValue::Int(42));
    let formula = grid.get_cell(2, 0).unwrap();
    assert!(!formula.error);
}

#[test]
fn literal_fallback_chain() {
    let mut grid = GridState::new();
    grid.set_raw_at(0, 0, "abc".to_string());
    grid.set_raw_at(1, 0, "3.14".to_string());
    grid.set_raw_at(2, 0, "42".to_string());
    grid.set_raw_at(3, 0, " 7 ".to_string());
    grid.set_raw_at(4, 0, "3.140".to_string());
    evaluate_tick(&mut grid);
    let text = grid.get_cell(0, 0).unwrap();
    assert_eq!(text.value, CellValue::Text("abc".to_string()));
    assert!(!text.error);
    assert_eq!(grid.get_cell(1, 0).unwrap().value, CellValue::Float("3.14".to_string()));
    assert_eq!(grid.get_cell(2, 0).unwrap().value, CellValue::Int(42));
    // The text is trimmed before parsing, but kept whole as a fallback.
    assert_eq!(grid.get_cell(3, 0).unwrap().value, CellValue::Int(7));
    // The float value is kept in its canonical spelling, not the source's.
    assert_eq!(grid.get_cell(4, 0).unwrap().value, CellValue::Float("3.14".to_string()));
}

#[test]
fn int_literal_range_edges() {
    let mut grid = GridState::new();
    grid.set_raw_at(0, 0, "9223372036854775807".to_string());
    grid.set_raw_at(1, 0, "-9223372036854775808".to_string());
    grid.set_raw_at(2, 0, "9223372036854775808".to_string());
    evaluate_tick(&mut grid);
    assert_eq!(grid.get_cell(0, 0).unwrap().value, CellValue::Int(i64::MAX));
    assert_eq!(grid.get_cell(1, 0).unwrap().value, CellValue::Int(i64::MIN));
    // One past i64::MAX overflows the integer parse and falls to float.
    match grid.get_cell(2, 0).unwrap().value {
        CellValue::Float(_) => {},
        ref other => panic!("expected a float value, got {:?}", other),
    }
}

#[test]
fn formula_error_reports_message() {
    let grid = GridState::new();
    let ctx = build_context(&grid);
    let err = evaluate_formula("1 +", &ctx).unwrap_err();
    assert!(!err.message.is_empty());
    assert!(evaluate_formula("1/0", &ctx).is_err());
    assert_eq!(evaluate_formula("1 + 2", &ctx).unwrap(), CellValue::Int(3));
}

#[test]
fn absent_coordinates_read_as_zero() {
    // A coordinate holding no cell reads as integer zero, so referencing
    // an empty cell is never a failure cause.
    let mut grid = GridState::new();
    grid.set_raw_at(0, 0, "=Q99+1".to_string());
    evaluate_tick(&mut grid);
    let cell = grid.get_cell(0, 0).unwrap();
    assert!(!cell.error);
    assert_eq!(cell.value, CellValue::Int(1));
    // A variable that is no coordinate name still fails, only for its own
    // cell; "A015" is not the name of any coordinate (names carry no
    // leading zero), so it fails too.
    grid.set_raw_at(1, 0, "=foo+1".to_string());
    grid.set_raw_at(2, 0, "=A015+1".to_string());
    evaluate_tick(&mut grid);
    assert!(grid.get_cell(1, 0).unwrap().error);
    assert!(grid.get_cell(2, 0).unwrap().error);
    assert!(!grid.get_cell(0, 0).unwrap().error);
    // Once the referenced cell exists, its value replaces the default.
    grid.set_raw_at(16, 99, "7".to_string());
    evaluate_tick(&mut grid);
    evaluate_tick(&mut grid);
    assert_eq!(grid.get_cell(0, 0).unwrap().value, CellValue::Int(8));
}

#[test]
fn cell_new_and_set_raw() {
    let cell = Cell::new("= A0 + 1".to_string());
    assert!(cell.is_formula);
    assert!(!cell.error);
    assert_eq!(cell.value, CellValue::Int(0));
    assert_eq!(cell.content_hash, None);

    let mut cell = Cell::new("  == x".to_string());
    assert!(cell.is_formula);
    cell.error = true;
    cell.set_raw("plain".to_string());
    assert!(!cell.is_formula);
    assert!(!cell.error);

    let empty = Cell::default();
    assert_eq!(empty.raw, "");
    assert!(!empty.is_formula);
}

#[test]
fn gpu_cell_packing() {
    let mut cell = Cell::new("=A0".to_string());
    cell.error = true;
    cell.content_hash = Some(7);
    cell.value = CellValue::Int(-3);
    let g = GpuCell::from_cell(&cell, true);
    assert_eq!(
        g.flags,
        GpuCell::FLAG_SELECTED | GpuCell::FLAG_FORMULA | GpuCell::FLAG_ERROR | GpuCell::FLAG_RICH
    );
    assert_eq!(g.value, -3);
    assert_eq!(g.to_u32_pair(), ((-3i32) as u32, 15));

    // Clamping of out-of-range integers, zero for non-integers.
    let mut big = Cell::new("x".to_string());
    big.value = CellValue::Int(i64::MAX);
    assert_eq!(GpuCell::from_cell(&big, false).value, i32::MAX);
    big.value = CellValue::Int(i64::MIN);
    assert_eq!(GpuCell::from_cell(&big, false).value, i32::MIN);
    big.value = CellValue::Text("t".to_string());
    let g = GpuCell::from_cell(&big, false);
    assert_eq!(g.value, 0);
    assert_eq!(g.flags, 0);
}

#[test]
fn viewport_buffer_words() {
    let mut grid = GridState::new();
    grid.set_raw_at(1, 1, "=A0".to_string());
    grid.select(0, 0);
    let buffer = grid.to_gpu_cells_viewport(0, 0, 2, 2);
    assert_eq!(buffer.len(), 4);
    assert_eq!(buffer[0], GpuCell::FLAG_SELECTED);  // (0,0): empty, selected
    assert_eq!(buffer[1], 0);  // (1,0): empty
    assert_eq!(buffer[2], 0);  // (0,1): empty
    assert_eq!(buffer[3], GpuCell::FLAG_FORMULA);  // (1,1): formula cell
}

#[test]
fn selection_is_view_state() {
    let mut grid = GridState::new();
    grid.select(2, 3);
    assert!(grid.is_selected(2, 3));
    assert!(!grid.is_selected(3, 2));
    grid.clear_selection();
    assert!(!grid.is_selected(2, 3));
    assert_ne!(coord_key(2, 3), coord_key(3, 2));
}

#[test]
fn manual_tick_fires_once_and_resets() {
    let mut control = TickControl::default();
    let mut timer = EvaluationTimer::default();
    let mut grid = GridState::new();
    grid.set_raw_at(0, 0, "1".to_string());

    // No trigger: nothing happens.
    tick_evaluation_system(&mut control, &mut timer, 1000, &mut grid);
    assert_eq!(grid.get_cell(0, 0).unwrap().value, CellValue::Int(0));

    // Manual trigger: one pass, flag consumed, timer untouched.
    control.manual_tick_requested = true;
    tick_evaluation_system(&mut control, &mut timer, 1000, &mut grid);
    assert!(!control.manual_tick_requested);
    assert_eq!(timer.elapsed_ms, 0);
    assert_eq!(grid.get_cell(0, 0).unwrap().value, CellValue::Int(1));
}

#[test]
fn auto_tick_follows_the_timer() {
    let mut control = TickControl::default();
    control.auto_tick_enabled = true;
    let mut timer = EvaluationTimer::default();
    let mut grid = GridState::new();
    grid.set_raw_at(0, 0, "=A0+1".to_string());

    // 60 ms: the 100 ms timer has not fired yet.
    tick_evaluation_system(&mut control, &mut timer, 60, &mut grid);
    assert_eq!(timer.elapsed_ms, 60);
    assert_eq!(grid.get_cell(0, 0).unwrap().value, CellValue::Int(0));

    // 60 more: fired once, remainder kept.
    tick_evaluation_system(&mut control, &mut timer, 60, &mut grid);
    assert_eq!(timer.elapsed_ms, 20);
    assert_eq!(grid.get_cell(0, 0).unwrap().value, CellValue::Int(1));
}

fn request(coord: (i32, i32), svg: &str, w: u32, h: u32) -> SvgRenderRequest {
    SvgRenderRequest {
        cell_coord: coord,
        svg: svg.to_string(),
        width: w,
        height: h,
        content_hash: seahash::hash(svg.as_bytes()),
    }
}

#[test]
fn duplicate_requests_for_one_coordinate_are_suppressed() {
    let (mut renderer, req_rx, res_tx) = SvgRenderer::new();
    renderer.request_render(request((0, 0), "<svg/>", 8, 4));
    renderer.request_render(request((0, 0), "<svg/>", 8, 4));
    // Exactly one request reached the worker side.
    let first = req_rx.try_recv().expect("one request must be queued");
    assert!(req_rx.try_recv().is_err());

    // Complete it; polling clears the pending marker and caches the buffer.
    let hash = first.content_hash;
    let result = complete_request(first, None);
    res_tx.send(result).unwrap();
    let results = renderer.poll_results();
    assert_eq!(results.len(), 1);
    assert!(renderer.is_cached(hash));

    // The coordinate may be requested again now.
    renderer.request_render(request((0, 0), "<svg/>", 8, 4));
    assert!(req_rx.try_recv().is_ok());
}

#[test]
fn identical_content_shares_one_cache_entry() {
    let (mut renderer, req_rx, res_tx) = SvgRenderer::new();
    let svg = "<svg xmlns=\"http://www.w3.org/2000/svg\"/>";
    renderer.request_render(request((0, 0), svg, 8, 4));
    renderer.request_render(request((5, 9), svg, 8, 4));
    let a = req_rx.try_recv().unwrap();
    let b = req_rx.try_recv().unwrap();
    // Identical content descriptions carry identical digests.
    assert_eq!(a.content_hash, b.content_hash);
    let hash = a.content_hash;
    res_tx.send(complete_request(a, None)).unwrap();
    res_tx.send(complete_request(b, None)).unwrap();
    let results = renderer.poll_results();
    assert_eq!(results.len(), 2);
    assert!(renderer.is_cached(hash));
    // Both coordinates share a single cache entry.
    assert_eq!(renderer.pixel_cache.len(), 1);
}

#[test]
fn malformed_content_still_renders_a_transparent_tile() {
    let (mut renderer, req_rx, res_tx) = SvgRenderer::new();
    renderer.request_render(request((3, 3), "this is not markup", 80, 30));
    let req = req_rx.try_recv().unwrap();
    // The worker's rasterizer rejects the content...
    let options = usvg::Options::default();
    let pixels = match usvg::Tree::from_str(req.svg.as_str(), &options) {
        Ok(_) => panic!("malformed markup must not parse"),
        Err(_) => None,
    };
    // ...and the completed result is still a full transparent buffer.
    let result = complete_request(req, pixels);
    assert_eq!(result.width, 80);
    assert_eq!(result.height, 30);
    assert_eq!(result.rgba_buffer.len(), 80 * 30 * 4);
    assert!(result.rgba_buffer.iter().all(|&b| b == 0));
    res_tx.send(result).unwrap();
    let results = renderer.poll_results();
    assert_eq!(results.len(), 1);
    assert_eq!(results[0].cell_coord, (3, 3));
}

#[test]
fn undersized_pixels_fall_back_to_transparent() {
    let req = request((0, 0), "<svg/>", 4, 2);
    let result = complete_request(req, Some(vec![255u8; 3]));
    assert_eq!(result.rgba_buffer.len(), 4 * 2 * 4);
    assert!(result.rgba_buffer.iter().all(|&b| b == 0));

    let req = request((0, 0), "<svg/>", 2, 1);
    let pixels: Vec<u8> = (0u8..8).collect();
    let result = complete_request(req, Some(pixels.clone()));
    assert_eq!(result.rgba_buffer, pixels);
}

#[test]
fn content_digest_is_content_keyed() {
    // The cache key is a digest of the content bytes alone.
    let a = seahash::hash("same text".as_bytes());
    let b = seahash::hash("same text".as_bytes());
    let c = seahash::hash("other text".as_bytes());
    assert_eq!(a, b);
    assert_ne!(a, c);
}
