use solarmap::bodies::Body;
use solarmap::grid::{Color, Grid, Pixel};
use solarmap::horizons::{extract_table_lines, TableError};
use solarmap::numeric::{cos_exec, sin_exec};
use solarmap::render::{draw_ring, project, render_map, styled_rows};
use solarmap::view::{
    apply_cycle, clamp_zoom, focus_in, focus_out, zoom_in, zoom_out, BodyState, Position,
    ViewState,
};

fn state_80x24_earth_focus() -> ViewState {
    let mut s = ViewState::initial(false, String::from("OK"));
    s.focus_index = 0; // fit to Earth's orbit
    s.zoom_milli = 1000;
    s
}

#[test]
fn put_pixel_outside_grid_is_noop() {
    let mut g = Grid::new(10, 5);
    let p = Pixel { ch: 'x', color: Color::Red, priority: 5 };
    g.put_pixel(-1, 0, p);
    g.put_pixel(0, -3, p);
    g.put_pixel(10, 0, p);
    g.put_pixel(0, 5, p);
    for y in 0..5 {
        for x in 0..10 {
            assert_eq!(g.cell_at(x, y), None);
        }
    }
}

#[test]
fn put_pixel_priority_resolution() {
    let mut g = Grid::new(4, 4);
    let low_a = Pixel { ch: 'a', color: Color::Blue, priority: 3 };
    let low_b = Pixel { ch: 'b', color: Color::Red, priority: 3 };
    let high = Pixel { ch: 'h', color: Color::Yellow, priority: 7 };
    g.put_pixel(1, 2, low_a);
    // equal priority: the first writer stays
    g.put_pixel(1, 2, low_b);
    assert_eq!(g.cell_at(1, 2), Some(low_a));
    // lower priority: discarded
    g.put_pixel(1, 2, Pixel { ch: 'z', color: Color::Cyan, priority: 1 });
    assert_eq!(g.cell_at(1, 2), Some(low_a));
    // strictly higher priority: overwrites
    g.put_pixel(1, 2, high);
    assert_eq!(g.cell_at(1, 2), Some(high));
}

#[test]
fn ring_below_one_cell_draws_nothing() {
    let mut g = Grid::new(20, 20);
    draw_ring(&mut g, 10, 10, 999);
    for y in 0..20 {
        for x in 0..20 {
            assert_eq!(g.cell_at(x, y), None);
        }
    }
}

#[test]
fn ring_of_one_cell_draws_something() {
    let mut g = Grid::new(20, 20);
    draw_ring(&mut g, 10, 10, 1000);
    let mut drawn = 0;
    for y in 0..20 {
        for x in 0..20 {
            if g.cell_at(x, y).is_some() {
                drawn += 1;
            }
        }
    }
    assert!(drawn > 0);
}

#[test]
fn fixed_point_trig_cardinal_angles() {
    assert_eq!(cos_exec(0), 65536);
    assert_eq!(sin_exec(0), 0);
    assert_eq!(sin_exec(16384), 65536);
    assert_eq!(cos_exec(16384), 0);
    assert_eq!(sin_exec(32768), 0);
    assert_eq!(sin_exec(49152), -65536);
}

#[test]
fn project_focus_radius_lands_on_target_column() {
    // 80x24 panel: map is 78x22, center (39, 11), min side 22, zoom 1.0.
    // A body at the focus radius on the +X axis lands round(0.45 * 22) = 10
    // cells right of the center.
    let (px, py) = project(1_000_000, 0, 39, 11, 9_900_000, 1_000_000);
    assert_eq!((px, py), (49, 11));
}

#[test]
fn scenario_earth_ring_and_marker() {
    let mut s = state_80x24_earth_focus();
    s.bodies[3] = BodyState {
        body: Body::Earth,
        pos: Some(Position { x: 1_000_000, y: 0, z: 0 }),
    };
    let g = render_map(&s, 80, 24);
    assert_eq!((g.w, g.h), (78, 22));
    // Earth's marker lands where its ring also passes; the marker wins.
    let earth = g.cell_at(49, 11).expect("earth cell occupied");
    assert_eq!(earth.ch, 'o');
    assert_eq!(earth.color, Color::LightBlue);
    assert_eq!(earth.priority, 20);
    // The ring's topmost sample is a dim dot.
    let ring = g.cell_at(39, 1).expect("ring cell occupied");
    assert_eq!(ring.ch, '\u{B7}');
    assert_eq!(ring.color, Color::DarkGray);
    assert_eq!(ring.priority, 1);
    // The Sun sits at the center.
    let sun = g.cell_at(39, 11).expect("sun cell occupied");
    assert_eq!(sun.ch, '@');
    assert_eq!(sun.color, Color::Yellow);
}

#[test]
fn scenario_unknown_body_contributes_no_marker() {
    // Venus at (0, 0.5 AU) would land at (39, 6); while its position is
    // unknown it contributes no write there at all.
    let s = state_80x24_earth_focus();
    let g = render_map(&s, 80, 24);
    assert_eq!(g.cell_at(39, 6), None);

    let mut s2 = state_80x24_earth_focus();
    s2.bodies[2] = BodyState {
        body: Body::Venus,
        pos: Some(Position { x: 0, y: 500_000, z: 0 }),
    };
    let g2 = render_map(&s2, 80, 24);
    let venus = g2.cell_at(39, 6).expect("venus cell occupied");
    assert_eq!(venus.ch, 'o');
    assert_eq!(venus.priority, 20);
}

#[test]
fn scenario_failed_fetch_keeps_last_known_position() {
    let mut s = state_80x24_earth_focus();
    // First cycle: Mars is fetched.
    let mut cycle1: Vec<Option<Position>> = vec![None; 9];
    cycle1[4] = Some(Position { x: 1_523_679, y: 0, z: 0 });
    apply_cycle(&mut s, &cycle1, String::from("OK"), String::from("t1"));
    assert_eq!(s.bodies[4].pos, Some(Position { x: 1_523_679, y: 0, z: 0 }));
    // Second cycle: Mars fails, Venus succeeds.
    let mut cycle2: Vec<Option<Position>> = vec![None; 9];
    cycle2[2] = Some(Position { x: 0, y: 723_332, z: 0 });
    apply_cycle(
        &mut s,
        &cycle2,
        String::from("Fetch error (Mars): timeout"),
        String::from("t2"),
    );
    // Mars keeps its last known position; Venus took the new one.
    assert_eq!(s.bodies[4].pos, Some(Position { x: 1_523_679, y: 0, z: 0 }));
    assert_eq!(s.bodies[2].pos, Some(Position { x: 0, y: 723_332, z: 0 }));
    // The Sun is pinned to the origin, never fetched.
    assert_eq!(s.bodies[0].pos, Some(Position { x: 0, y: 0, z: 0 }));
    assert_eq!(s.status, "Fetch error (Mars): timeout");
    assert_eq!(s.last_update_utc.as_deref(), Some("t2"));
    // Mars still renders at its last known position.
    let g = render_map(&s, 80, 24);
    let mars = g.cell_at(54, 11).expect("mars cell occupied");
    assert_eq!(mars.ch, 'o');
    assert_eq!(mars.color, Color::Red);
}

#[test]
fn scenario_zoom_clamps_at_both_ends() {
    assert_eq!(clamp_zoom(100), 200);
    assert_eq!(clamp_zoom(199), 200);
    assert_eq!(clamp_zoom(200), 200);
    assert_eq!(clamp_zoom(1000), 1000);
    assert_eq!(clamp_zoom(50_000), 50_000);
    assert_eq!(clamp_zoom(50_001), 50_000);
    assert_eq!(clamp_zoom(9_000_000), 50_000);
    // Repeated steps never escape the range.
    let mut z = 49_000;
    for _ in 0..10 {
        z = zoom_in(z);
        assert!(z <= 50_000);
    }
    assert_eq!(z, 50_000);
    let mut z = 260;
    for _ in 0..10 {
        z = zoom_out(z);
        assert!(z >= 200);
    }
    assert_eq!(z, 200);
}

#[test]
fn zoom_steps_are_multiplicative() {
    assert_eq!(zoom_in(1000), 1250);
    assert_eq!(zoom_out(1000), 800);
}

#[test]
fn focus_steps_clamp_at_both_ends() {
    assert_eq!(focus_in(0), 0);
    assert_eq!(focus_in(3), 2);
    assert_eq!(focus_out(5), 5);
    assert_eq!(focus_out(3), 4);
}

#[test]
fn minimum_grid_is_one_by_one() {
    let s = state_80x24_earth_focus();
    let g = render_map(&s, 0, 0);
    assert_eq!((g.w, g.h), (1, 1));
    // The Sun still lands in the single cell.
    assert!(g.cell_at(0, 0).is_some());
}

#[test]
fn styled_rows_match_grid() {
    let mut s = state_80x24_earth_focus();
    s.bodies[3] = BodyState {
        body: Body::Earth,
        pos: Some(Position { x: 1_000_000, y: 0, z: 0 }),
    };
    let g = render_map(&s, 80, 24);
    let rows = styled_rows(&g);
    assert_eq!(rows.len(), 22);
    for row in &rows {
        assert_eq!(row.len(), 78);
    }
    assert_eq!(rows[11][49].ch, 'o');
    assert_eq!(rows[11][49].color, Some(Color::LightBlue));
    assert_eq!(rows[0][0].ch, ' ');
    assert_eq!(rows[0][0].color, None);
}

#[test]
fn table_extraction_happy_path() {
    let text = "header junk\n$$SOE\n 2460000.5, A.D., 1.0, 2.0, 3.0 \n\n  \n4, 5, 6\n$$EOE\ntrailer";
    let lines = extract_table_lines(&text.as_bytes().to_vec()).expect("table present");
    assert_eq!(lines.len(), 2);
    assert_eq!(lines[0], b"2460000.5, A.D., 1.0, 2.0, 3.0".to_vec());
    assert_eq!(lines[1], b"4, 5, 6".to_vec());
}

#[test]
fn table_extraction_missing_markers() {
    let no_soe = "nothing here $$EOE";
    assert_eq!(
        extract_table_lines(&no_soe.as_bytes().to_vec()),
        Err(TableError::MissingSoe)
    );
    let no_eoe = "$$SOE\n1, 2, 3";
    assert_eq!(
        extract_table_lines(&no_eoe.as_bytes().to_vec()),
        Err(TableError::MissingEoe)
    );
    let reversed = "$$EOE\n1, 2, 3\n$$SOE";
    assert_eq!(
        extract_table_lines(&reversed.as_bytes().to_vec()),
        Err(TableError::MarkersOutOfOrder)
    );
}
