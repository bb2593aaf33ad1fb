use keyframe::{interpolate_figure, interpolate_frame, interpolate_pivot, Figure, Frame, Pivot};

fn pivot(id: &str, kind: &str, x: f64, y: f64, children: Vec<Pivot<f64>>) -> Pivot<f64> {
    Pivot { id: id.to_string(), kind: kind.to_string(), x, y, children }
}

fn joint(id: &str, x: f64, y: f64, children: Vec<Pivot<f64>>) -> Pivot<f64> {
    pivot(id, "joint", x, y, children)
}

fn figure(id: &str, root_pivot: Pivot<f64>) -> Figure<f64> {
    Figure { id: id.to_string(), root_pivot }
}

fn frame(id: &str, figures: Vec<Figure<f64>>) -> Frame<f64> {
    Frame { id: id.to_string(), figures }
}

fn lerp(t: f64) -> impl Fn(f64, f64) -> f64 {
    move |a: f64, b: f64| a + (b - a) * t
}

#[test]
fn midpoint_of_single_pivot() {
    let a = frame("f1", vec![figure("fig1", joint("p1", 0.0, 0.0, vec![]))]);
    let b = frame("f1", vec![figure("fig1", joint("p1", 10.0, 20.0, vec![]))]);
    let out = interpolate_frame(&a, &b, &lerp(0.5));
    assert_eq!(out.id, "f1-interpolated");
    assert_eq!(out.figures.len(), 1);
    assert_eq!(out.figures[0].id, "fig1");
    assert_eq!(out.figures[0].root_pivot, joint("p1", 5.0, 10.0, vec![]));
}

#[test]
fn child_only_in_second_is_dropped_and_unmatched_child_is_kept() {
    let a = joint("root", 0.0, 0.0, vec![joint("c1", 0.0, 0.0, vec![])]);
    let b = joint("root", 0.0, 0.0, vec![joint("c2", 99.0, 99.0, vec![])]);
    let out = interpolate_pivot(&a, &b, &lerp(0.5));
    assert_eq!(out.children, vec![joint("c1", 0.0, 0.0, vec![])]);
}

#[test]
fn factor_zero_gives_first_frame_coordinates() {
    let a = frame(
        "a",
        vec![figure("fig", joint("r", 1.5, -2.0, vec![joint("k", 3.0, 4.0, vec![])]))],
    );
    let b = frame(
        "b",
        vec![figure("fig", joint("r", 100.0, 200.0, vec![joint("k", -7.0, 9.0, vec![])]))],
    );
    let out = interpolate_frame(&a, &b, &lerp(0.0));
    assert_eq!(out.figures, a.figures);
}

#[test]
fn factor_one_gives_second_frame_coordinates() {
    let a = frame(
        "a",
        vec![figure("fig", joint("r", 1.0, -2.0, vec![joint("k", 3.0, 4.0, vec![])]))],
    );
    let b = frame(
        "b",
        vec![figure("fig", pivot("r", "fixed", 100.0, 200.0, vec![joint("k", -7.0, 9.0, vec![])]))],
    );
    let out = interpolate_frame(&a, &b, &lerp(1.0));
    let root = &out.figures[0].root_pivot;
    assert_eq!((root.x, root.y), (100.0, 200.0));
    assert_eq!((root.children[0].x, root.children[0].y), (-7.0, 9.0));
    assert_eq!(root.kind, "joint");
}

#[test]
fn factor_outside_unit_interval_extrapolates() {
    let a = joint("p", 2.0, 10.0, vec![]);
    let b = joint("p", 6.0, 4.0, vec![]);
    let beyond = interpolate_pivot(&a, &b, &lerp(2.0));
    assert_eq!((beyond.x, beyond.y), (10.0, -2.0));
    let before = interpolate_pivot(&a, &b, &lerp(-1.0));
    assert_eq!((before.x, before.y), (-2.0, 16.0));
    let quarter = interpolate_pivot(&a, &b, &lerp(0.25));
    assert_eq!((quarter.x, quarter.y), (3.0, 8.5));
}

#[test]
fn output_has_shape_of_first_frame() {
    let a = frame(
        "a",
        vec![
            figure(
                "one",
                joint(
                    "r",
                    0.0,
                    0.0,
                    vec![
                        joint("l", 1.0, 1.0, vec![joint("l1", 2.0, 2.0, vec![])]),
                        joint("m", 3.0, 3.0, vec![]),
                    ],
                ),
            ),
            figure("two", joint("r", 5.0, 5.0, vec![])),
        ],
    );
    let b = frame(
        "b",
        vec![
            figure("three", joint("r", 9.0, 9.0, vec![])),
            figure(
                "one",
                joint(
                    "r",
                    10.0,
                    10.0,
                    vec![
                        joint("x", 0.0, 0.0, vec![]),
                        joint("m", 7.0, 7.0, vec![joint("m1", 1.0, 1.0, vec![])]),
                        joint("y", 0.0, 0.0, vec![]),
                    ],
                ),
            ),
            figure("four", joint("r", 9.0, 9.0, vec![])),
        ],
    );
    let out = interpolate_frame(&a, &b, &lerp(0.5));
    assert_eq!(out.figures.len(), 2);
    assert_eq!(out.figures[0].id, "one");
    assert_eq!(out.figures[1].id, "two");
    let root = &out.figures[0].root_pivot;
    assert_eq!((root.x, root.y), (5.0, 5.0));
    assert_eq!(root.children.len(), 2);
    assert_eq!(root.children[0], joint("l", 1.0, 1.0, vec![joint("l1", 2.0, 2.0, vec![])]));
    assert_eq!(root.children[1], joint("m", 5.0, 5.0, vec![]));
    assert_eq!(out.figures[1], a.figures[1]);
}

#[test]
fn figure_absent_from_second_frame_is_copied() {
    let held = figure(
        "gone",
        pivot("r", "fixed", 4.0, 8.0, vec![joint("c", 1.0, 2.0, vec![joint("d", 3.0, 4.0, vec![])])]),
    );
    let a = frame("a", vec![held.clone()]);
    let b = frame("b", vec![figure("other", joint("r", 100.0, 100.0, vec![]))]);
    let out = interpolate_frame(&a, &b, &lerp(0.75));
    assert_eq!(out.figures, vec![held]);
}

#[test]
fn figures_are_paired_by_id_not_by_position() {
    let a = frame(
        "a",
        vec![figure("left", joint("r", 0.0, 0.0, vec![])), figure("right", joint("r", 10.0, 10.0, vec![]))],
    );
    let b = frame(
        "b",
        vec![figure("right", joint("r", 20.0, 30.0, vec![])), figure("left", joint("r", 4.0, 8.0, vec![]))],
    );
    let out = interpolate_frame(&a, &b, &lerp(0.5));
    assert_eq!(out.figures[0], figure("left", joint("r", 2.0, 4.0, vec![])));
    assert_eq!(out.figures[1], figure("right", joint("r", 15.0, 20.0, vec![])));
}

#[test]
fn first_of_several_candidates_is_the_partner() {
    let a = joint("r", 0.0, 0.0, vec![joint("c", 0.0, 0.0, vec![])]);
    let b = joint(
        "r",
        0.0,
        0.0,
        vec![joint("d", 50.0, 50.0, vec![]), joint("c", 10.0, 20.0, vec![]), joint("c", 30.0, 40.0, vec![])],
    );
    let out = interpolate_pivot(&a, &b, &lerp(1.0));
    assert_eq!(out.children, vec![joint("c", 10.0, 20.0, vec![])]);

    let fa = frame("a", vec![figure("f", joint("r", 0.0, 0.0, vec![]))]);
    let fb = frame(
        "b",
        vec![figure("f", joint("r", 2.0, 2.0, vec![])), figure("f", joint("r", 8.0, 8.0, vec![]))],
    );
    let fout = interpolate_frame(&fa, &fb, &lerp(1.0));
    assert_eq!(fout.figures, vec![figure("f", joint("r", 2.0, 2.0, vec![]))]);
}

#[test]
fn partner_is_sought_among_the_children_of_the_partner_only() {
    let a = joint("r", 0.0, 0.0, vec![joint("c", 1.0, 1.0, vec![])]);
    let b = joint(
        "r",
        0.0,
        0.0,
        vec![joint("other", 5.0, 5.0, vec![joint("c", 9.0, 9.0, vec![])])],
    );
    let out = interpolate_pivot(&a, &b, &lerp(1.0));
    assert_eq!(out.children, vec![joint("c", 1.0, 1.0, vec![])]);
}

#[test]
fn nothing_below_an_unmatched_child_is_blended() {
    let a = joint(
        "r",
        0.0,
        0.0,
        vec![joint("c", 1.0, 1.0, vec![joint("g", 2.0, 2.0, vec![])])],
    );
    let b = joint(
        "r",
        0.0,
        0.0,
        vec![joint("z", 7.0, 7.0, vec![joint("g", 8.0, 8.0, vec![])])],
    );
    let out = interpolate_pivot(&a, &b, &lerp(1.0));
    assert_eq!(out, a);
}

#[test]
fn id_and_kind_come_from_the_first_side() {
    let a = figure("fig", pivot("hip", "joint", 0.0, 0.0, vec![pivot("knee", "sprocket", 0.0, 2.0, vec![])]));
    let b = figure("fig", pivot("other", "fixed", 4.0, 0.0, vec![pivot("knee", "fixed", 4.0, 6.0, vec![])]));
    let out = interpolate_figure(&a, &b, &lerp(0.5));
    assert_eq!(
        out,
        figure("fig", pivot("hip", "joint", 2.0, 0.0, vec![pivot("knee", "sprocket", 2.0, 4.0, vec![])]))
    );
}

#[test]
fn roots_of_paired_figures_are_blended_whatever_their_ids() {
    let a = figure("fig", joint("ra", 0.0, 0.0, vec![]));
    let b = figure("renamed", joint("rb", 8.0, 4.0, vec![]));
    let out = interpolate_figure(&a, &b, &lerp(0.5));
    assert_eq!(out, figure("fig", joint("ra", 4.0, 2.0, vec![])));
}

#[test]
fn frame_is_named_after_the_first_frame() {
    let a = frame("walk-3", vec![]);
    let b = frame("walk-4", vec![figure("f", joint("r", 1.0, 1.0, vec![]))]);
    let out = interpolate_frame(&a, &b, &lerp(0.5));
    assert_eq!(out.id, "walk-3-interpolated");
    assert!(out.figures.is_empty());

    let unnamed = interpolate_frame(&frame("", vec![]), &frame("x", vec![]), &lerp(0.5));
    assert_eq!(unnamed.id, "-interpolated");
}

#[test]
fn deep_tree_is_blended_level_by_level() {
    let a = joint(
        "a",
        0.0,
        0.0,
        vec![joint("b", 0.0, 0.0, vec![joint("c", 0.0, 0.0, vec![joint("d", 0.0, 0.0, vec![])])])],
    );
    let b = joint(
        "a",
        2.0,
        4.0,
        vec![joint("b", 4.0, 8.0, vec![joint("c", 8.0, 16.0, vec![joint("d", 16.0, 32.0, vec![])])])],
    );
    let out = interpolate_pivot(&a, &b, &lerp(0.5));
    let expected = joint(
        "a",
        1.0,
        2.0,
        vec![joint("b", 2.0, 4.0, vec![joint("c", 4.0, 8.0, vec![joint("d", 8.0, 16.0, vec![])])])],
    );
    assert_eq!(out, expected);
}

#[test]
fn children_keep_the_order_of_the_first_side() {
    let a = joint(
        "r",
        0.0,
        0.0,
        vec![joint("one", 1.0, 0.0, vec![]), joint("two", 2.0, 0.0, vec![]), joint("three", 3.0, 0.0, vec![])],
    );
    let b = joint(
        "r",
        0.0,
        0.0,
        vec![joint("three", 30.0, 0.0, vec![]), joint("one", 10.0, 0.0, vec![])],
    );
    let out = interpolate_pivot(&a, &b, &lerp(1.0));
    assert_eq!(
        out.children,
        vec![joint("one", 10.0, 0.0, vec![]), joint("two", 2.0, 0.0, vec![]), joint("three", 30.0, 0.0, vec![])]
    );
}

#[test]
fn inputs_are_left_as_they_were() {
    let a = frame("a", vec![figure("f", joint("r", 0.0, 0.0, vec![joint("c", 1.0, 1.0, vec![])]))]);
    let b = frame("b", vec![figure("f", joint("r", 2.0, 2.0, vec![joint("c", 3.0, 3.0, vec![])]))]);
    let a_before = a.clone();
    let b_before = b.clone();
    let _ = interpolate_frame(&a, &b, &lerp(0.5));
    assert_eq!(a, a_before);
    assert_eq!(b, b_before);
}

#[test]
fn blend_is_called_for_paired_pivots_only() {
    let calls = std::cell::Cell::new(0usize);
    let counting = |a: f64, b: f64| {
        calls.set(calls.get() + 1);
        a + (b - a) * 0.5
    };
    let a = frame(
        "a",
        vec![
            figure("f", joint("r", 0.0, 0.0, vec![joint("c", 1.0, 1.0, vec![]), joint("u", 1.0, 1.0, vec![])])),
            figure("g", joint("r", 0.0, 0.0, vec![joint("c", 1.0, 1.0, vec![])])),
        ],
    );
    let b = frame("b", vec![figure("f", joint("r", 2.0, 2.0, vec![joint("c", 3.0, 3.0, vec![])]))]);
    let _ = interpolate_frame(&a, &b, &counting);
    assert_eq!(calls.get(), 4);
}

#[test]
fn coordinates_may_be_integers() {
    let a = Pivot {
        id: "r".to_string(),
        kind: "joint".to_string(),
        x: 10i64,
        y: -10i64,
        children: vec![Pivot { id: "c".to_string(), kind: "fixed".to_string(), x: 0i64, y: 0i64, children: vec![] }],
    };
    let b = Pivot {
        id: "r".to_string(),
        kind: "joint".to_string(),
        x: 30i64,
        y: 10i64,
        children: vec![Pivot { id: "c".to_string(), kind: "joint".to_string(), x: 8i64, y: 4i64, children: vec![] }],
    };
    let halfway = |p: i64, q: i64| p + (q - p) / 2;
    let out = interpolate_pivot(&a, &b, &halfway);
    assert_eq!((out.x, out.y), (20, 0));
    assert_eq!((out.children[0].x, out.children[0].y), (4, 2));
    assert_eq!(out.children[0].kind, "fixed");
}

#[test]
fn same_inputs_give_the_same_frame() {
    let a = frame(
        "a",
        vec![
            figure("f", joint("r", 0.0, 1.0, vec![joint("c", 2.0, 3.0, vec![]), joint("d", 4.0, 5.0, vec![])])),
            figure("g", joint("r", 6.0, 7.0, vec![])),
        ],
    );
    let b = frame(
        "b",
        vec![figure("f", joint("r", 10.0, 11.0, vec![joint("d", 14.0, 15.0, vec![])]))],
    );
    let once = interpolate_frame(&a, &b, &lerp(0.3));
    let again = interpolate_frame(&a, &b, &lerp(0.3));
    assert_eq!(once, again);
}
