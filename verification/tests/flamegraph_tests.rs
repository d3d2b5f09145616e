use rr_core::data::{Message, MessageEnum, Span, SpanId, CallsiteId, Time};
use rr_core::flamegraph::{
    BlockVisibility, Filter, FlameConfig, Primitive, RootPlacer, ZoomView, block_visibility,
    contains_sub, grid_line_tier, grid_spacing_ns, grid_text_decimals, layout_frame, sat_add,
};
use rr_core::span_tree::SpanTree;

fn msg(t: i64, body: MessageEnum) -> Message {
    Message {
        log_time: Time(t),
        msg_enum: body,
    }
}

fn new_span(id: u64, parent: Option<u64>) -> MessageEnum {
    MessageEnum::NewSpan(Span {
        id: SpanId(id),
        parent_span_id: parent.map(SpanId),
        callsite_id: CallsiteId(1),
        fields: vec![],
    })
}

fn boxes_overlap(a: &rr_core::flamegraph::PlacedBox, b: &rr_core::flamegraph::PlacedBox) -> bool {
    !(a.max_x <= b.min_x || b.max_x <= a.min_x || a.max_y <= b.min_y || b.max_y <= a.min_y)
}

#[test]
fn skyline_places_overlapping_roots_below_each_other() {
    // Two roots overlapping in time: the second goes below the first
    // with the configured spacing.
    let mut placer = RootPlacer::new(0, 20);
    let top1 = placer.place(0, 100, 16);
    let top2 = placer.place(50, 150, 16);
    assert_eq!(top1, 0);
    assert_eq!(top2, 16 + 20);
    // A third root entirely to the right of both goes back to the top.
    let top3 = placer.place(200, 300, 16);
    assert_eq!(top3, 0);
}

#[test]
fn placement_boxes_never_overlap() {
    let mut placer = RootPlacer::new(10, 5);
    let extents = [
        (0i64, 50i64),
        (25, 75),
        (60, 200),
        (0, 10),
        (10, 30),
        (199, 205),
        (0, 205),
    ];
    for (lo, hi) in extents {
        placer.place(lo, hi, 16);
    }
    for i in 0..placer.boxes.len() {
        for j in 0..placer.boxes.len() {
            if i != j {
                assert!(!boxes_overlap(&placer.boxes[i], &placer.boxes[j]));
            }
        }
    }
}

#[test]
fn zoom_keeps_the_nanosecond_under_the_pointer() {
    // The exact position of `ns` is canvas_min_x + num/width_ns with
    // num = canvas_width*(ns-min_ns) + pan. After a zoom pivoting at
    // dx, the nanosecond that sat at pixel canvas_min_x+dx still sits
    // there: compare the rationals cross-multiplied.
    let mut v = ZoomView {
        canvas_min_x: 7,
        canvas_width: 1000,
        min_ns: 1_000_000,
        width_ns: 4_000_000,
        pan: 2_000,
    };
    let pos_num =
        |v: &ZoomView, ns: i128| -> i128 {
            (v.canvas_min_x as i128) * (v.width_ns as i128)
                + (v.canvas_width as i128) * (ns - v.min_ns as i128)
                + v.pan
        };
    let dx: i64 = 250;
    // The nanosecond whose exact position is the pointer pixel.
    // pos = min_x + dx  <=>  num = (min_x+dx)*width_ns.
    // Pick ns so that this holds exactly.
    let target_num = ((v.canvas_min_x + dx) as i128) * (v.width_ns as i128);
    // canvas_width*(ns - min_ns) = target_num - min_x*width_ns - pan
    let lhs = target_num - (v.canvas_min_x as i128) * (v.width_ns as i128) - v.pan;
    assert_eq!(lhs % v.canvas_width as i128, 0);
    let ns = v.min_ns as i128 + lhs / v.canvas_width as i128;
    let before = pos_num(&v, ns);
    assert_eq!(before, ((v.canvas_min_x + dx) as i128) * (v.width_ns as i128));

    let old_width = v.width_ns;
    assert!(v.zoom(2_000_000, dx));
    assert_ne!(v.width_ns, old_width);
    let after = pos_num(&v, ns);
    // Same pixel, new denominator.
    assert_eq!(after, ((v.canvas_min_x + dx) as i128) * (v.width_ns as i128));
}

#[test]
fn grid_spacing_is_the_smallest_fitting_power_of_ten() {
    // 1e6 ns across, at most 100 lines: 1000 ns spacing gives 1000
    // lines, 10_000 gives 100 which fits.
    assert_eq!(grid_spacing_ns(1_000_000, 100), 10_000);
    assert_eq!(grid_spacing_ns(0, 100), 1000);
    assert_eq!(grid_spacing_ns(100_000, 100), 1000);
}

#[test]
fn grid_tiers_and_label_decimals() {
    let s = 1000;
    assert_eq!(grid_line_tier(0, s), 2);
    assert_eq!(grid_line_tier(100_000, s), 2);
    assert_eq!(grid_line_tier(10_000, s), 1);
    assert_eq!(grid_line_tier(3_000, s), 0);

    assert_eq!(grid_text_decimals(2_000_000), 0);
    assert_eq!(grid_text_decimals(1_300_000), 1);
    assert_eq!(grid_text_decimals(1_310_000), 2);
    assert_eq!(grid_text_decimals(1_234), 3);
}

#[test]
fn culling_thresholds() {
    assert!(matches!(block_visibility(0, 1, 3), BlockVisibility::Culled));
    assert!(matches!(block_visibility(2, 1, 3), BlockVisibility::ThinLine));
    assert!(matches!(block_visibility(5, 1, 3), BlockVisibility::Full));
}

#[test]
fn filter_matches_case_insensitively() {
    let mut filter = Filter::new();
    assert!(filter.admits("anything"));
    filter.set("ReQuEsT");
    assert_eq!(filter.filter, "request");
    assert!(filter.admits("one REQUEST handled"));
    assert!(!filter.admits("nothing here"));
    filter.clear();
    assert!(filter.admits("nothing here"));
}

#[test]
fn substring_search_agrees_with_std() {
    let hay = "abcabcxyz";
    for needle in ["", "abc", "bcx", "xyz", "zzz", "abcabcxyzq"] {
        assert_eq!(contains_sub(needle, hay), hay.contains(needle), "{needle}");
    }
}

#[test]
fn empty_index_draws_nothing() {
    let tree = SpanTree::new();
    let cfg = FlameConfig {
        rect_height: 16,
        gap: 2,
        root_spacing: 20,
    };
    let out = layout_frame(&tree, &cfg, &Filter::new(), 0);
    assert!(out.is_empty());
    assert_eq!(tree.ns_range(), None);
}

#[test]
fn one_root_with_known_lifetime_draws_one_rectangle() {
    // One root with a known lifetime, no intervals, no events: one
    // block whose extent is exactly the lifetime.
    let mut tree = SpanTree::new();
    tree.on_mesage(&msg(100, new_span(1, None)));
    tree.on_mesage(&msg(400, MessageEnum::DestroySpan(SpanId(1))));
    let cfg = FlameConfig {
        rect_height: 16,
        gap: 2,
        root_spacing: 20,
    };
    let out = layout_frame(&tree, &cfg, &Filter::new(), 0);
    assert_eq!(out.len(), 1);
    match &out[0] {
        Primitive::Block {
            span,
            min_ns,
            max_ns,
            top_y,
            bottom_y,
            ..
        } => {
            assert_eq!(*span, SpanId(1));
            assert_eq!((*min_ns, *max_ns), (100, 400));
            assert_eq!(*max_ns - *min_ns, 300);
            assert_eq!((*top_y, *bottom_y), (0, 16));
        }
        other => panic!("expected a block, got {:?}", other),
    }
}

#[test]
fn spawned_child_is_deferred_with_a_connector() {
    // Parent active over [0,100]; child B crosses its end, so B is
    // painted as a deferred root with a connector from the parent.
    let mut tree = SpanTree::new();
    tree.on_mesage(&msg(0, new_span(1, None)));
    tree.on_mesage(&msg(0, MessageEnum::EnterSpan(SpanId(1))));
    tree.on_mesage(&msg(40, new_span(3, Some(1))));
    tree.on_mesage(&msg(50, MessageEnum::EnterSpan(SpanId(3))));
    tree.on_mesage(&msg(100, MessageEnum::ExitSpan(SpanId(1))));
    tree.on_mesage(&msg(100, MessageEnum::DestroySpan(SpanId(1))));
    tree.on_mesage(&msg(150, MessageEnum::ExitSpan(SpanId(3))));
    let cfg = FlameConfig {
        rect_height: 16,
        gap: 2,
        root_spacing: 20,
    };
    let out = layout_frame(&tree, &cfg, &Filter::new(), 0);
    let blocks: Vec<_> = out
        .iter()
        .filter(|p| matches!(p, Primitive::Block { .. }))
        .collect();
    let connectors: Vec<_> = out
        .iter()
        .filter(|p| matches!(p, Primitive::Connector { .. }))
        .collect();
    assert_eq!(blocks.len(), 2);
    assert_eq!(connectors.len(), 1);
}

#[test]
fn estimate_prefers_lifetime_then_intervals_then_children() {
    let mut tree = SpanTree::new();
    // Lifetime fully known.
    tree.on_mesage(&msg(10, new_span(1, None)));
    tree.on_mesage(&msg(90, MessageEnum::DestroySpan(SpanId(1))));
    assert_eq!(tree.estimate_lifetime(SpanId(1)), (10, 90));
    // Open end: the last interval's exit fills in the maximum.
    tree.on_mesage(&msg(0, new_span(2, None)));
    tree.on_mesage(&msg(20, MessageEnum::EnterSpan(SpanId(2))));
    tree.on_mesage(&msg(70, MessageEnum::ExitSpan(SpanId(2))));
    assert_eq!(tree.estimate_lifetime(SpanId(2)), (0, 70));
    // Nothing known of the parent's end: the child's extent is used.
    tree.on_mesage(&msg(5, new_span(3, None)));
    tree.on_mesage(&msg(6, new_span(4, Some(3))));
    tree.on_mesage(&msg(80, MessageEnum::DestroySpan(SpanId(4))));
    assert_eq!(tree.estimate_lifetime(SpanId(3)), (5, 80));
}

#[test]
fn saturating_add_clamps_at_the_range_ends() {
    assert_eq!(sat_add(1, 2), 3);
    assert_eq!(sat_add(i64::MAX, 1), i64::MAX);
    assert_eq!(sat_add(i64::MIN, -1), i64::MIN);
}
