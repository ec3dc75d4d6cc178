//! The verified site pipeline on the placement grid of the default setup
//! (300 mm wafer, 3 mm edge exclusion, 10 x 8 mm dies, 0.12 mm scribes, die at
//! the origin, D0 = 0.1 /cm², Murphy model, 4 x 4 probe array).

use die_yield::{
    analysis_seed, count_class, count_defective, count_tone, settle_sites, site_tones, CellTone,
    DieClass, DieSite, ProbeArray,
};

fn classify(cx: f64, cy: f64, hw: f64, hh: f64, wafer_r: f64, usable_r: f64) -> Option<DieClass> {
    let nearest_x = (cx.abs() - hw).max(0.0);
    let nearest_y = (cy.abs() - hh).max(0.0);
    let nearest = nearest_x.mul_add(nearest_x, nearest_y * nearest_y);
    let far_x = cx.abs() + hw;
    let far_y = cy.abs() + hh;
    let farthest = far_x.mul_add(far_x, far_y * far_y);
    let wafer_sq = wafer_r * wafer_r;
    let usable_sq = usable_r * usable_r;
    let tolerance = wafer_sq.max(1.0) * 1.0e-12;
    if nearest > wafer_sq + tolerance {
        None
    } else if farthest <= usable_sq + tolerance {
        Some(DieClass::Usable)
    } else if nearest <= usable_sq + tolerance {
        Some(DieClass::Partial)
    } else {
        Some(DieClass::EdgeExclusion)
    }
}

struct Setup {
    diameter: f64,
    edge: f64,
    width: f64,
    height: f64,
    column_lane: f64,
    row_lane: f64,
    die_at_origin: bool,
    offset_x: f64,
    offset_y: f64,
}

const DEFAULT_SETUP: Setup = Setup {
    diameter: 300.0,
    edge: 3.0,
    width: 10.0,
    height: 8.0,
    column_lane: 0.12,
    row_lane: 0.12,
    die_at_origin: true,
    offset_x: 0.0,
    offset_y: 0.0,
};

fn sites_of(setup: &Setup) -> Vec<DieSite> {
    let (pitch_x, pitch_y) = (setup.width + setup.column_lane, setup.height + setup.row_lane);
    let wafer_r = setup.diameter / 2.0;
    let usable_r = wafer_r - setup.edge;
    let origin = |pitch: f64, offset: f64| {
        if setup.die_at_origin {
            offset
        } else {
            pitch / 2.0 + offset
        }
    };
    let (origin_x, origin_y) = (origin(pitch_x, setup.offset_x), origin(pitch_y, setup.offset_y));
    let span = |half: f64, origin: f64, pitch: f64| {
        let first = ((-wafer_r - half - origin) / pitch).floor() as i32;
        let last = ((wafer_r + half - origin) / pitch).ceil() as i32;
        first..=last
    };
    let (hw, hh) = (setup.width / 2.0, setup.height / 2.0);
    let mut sites = Vec::new();
    for row in span(hh, origin_y, pitch_y) {
        for column in span(hw, origin_x, pitch_x) {
            let cx = origin_x + f64::from(column) * pitch_x;
            let cy = origin_y + f64::from(row) * pitch_y;
            if let Some(class) = classify(cx, cy, hw, hh, wafer_r, usable_r) {
                sites.push(DieSite { column, row, class, defective: false });
            }
        }
    }
    sites
}

fn default_sites() -> Vec<DieSite> {
    sites_of(&DEFAULT_SETUP)
}

fn default_seed() -> u64 {
    analysis_seed(&[
        10.0_f64.to_bits(),
        8.0_f64.to_bits(),
        0.12_f64.to_bits(),
        0.12_f64.to_bits(),
        300.0_f64.to_bits(),
        3.0_f64.to_bits(),
        0.1_f64.to_bits(),
        0.0_f64.to_bits(),
        0.0_f64.to_bits(),
        1,
        4,
        4,
    ])
}

fn murphy(area_mm2: f64, density: f64) -> f64 {
    let exposure = area_mm2 / 100.0 * density;
    (-(-exposure).exp_m1() / exposure).powi(2).clamp(0.0, 1.0)
}

#[test]
fn default_grid_counts_match_the_reference_totals() {
    let mut sites = default_sites();
    assert_eq!(count_class(&sites, DieClass::Usable), 767);
    assert_eq!(count_class(&sites, DieClass::Partial), 124);
    assert_eq!(count_class(&sites, DieClass::EdgeExclusion), 40);

    let yield_fraction = murphy(80.0, 0.1);
    assert!((yield_fraction - 0.923_608_780_146_839_3).abs() < 1e-12);
    let rounded_good = (767.0 * yield_fraction).round() as u64;
    let (totals, probe) = settle_sites(&mut sites, ProbeArray { columns: 4, rows: 4 }, rounded_good, default_seed());

    assert_eq!(totals.geometric_usable, 767);
    assert_eq!(totals.expected_good, 708);
    assert_eq!(totals.expected_defective, 59);
    assert_eq!(totals.partial, 124);
    assert_eq!(totals.edge_excluded, 40);
    assert_eq!(count_defective(&sites), 59);
    assert_eq!(probe.sites_per_touchdown, 16);
    assert!(probe.touchdown_count > 0);
    assert!(probe.touchdown_count <= totals.geometric_usable);

    let tones = site_tones(&sites);
    assert_eq!(count_tone(&tones, CellTone::Productive), 708);
    assert_eq!(count_tone(&tones, CellTone::Defective), 59);
    assert_eq!(count_tone(&tones, CellTone::Boundary), 124);
    assert_eq!(count_tone(&tones, CellTone::Excluded), 40);
}

#[test]
fn default_markers_are_deterministic() {
    let mut first = default_sites();
    let mut second = default_sites();
    settle_sites(&mut first, ProbeArray { columns: 4, rows: 4 }, 708, default_seed());
    settle_sites(&mut second, ProbeArray { columns: 4, rows: 4 }, 708, default_seed());
    assert_eq!(first, second);
    assert!(first.iter().all(|s| !s.defective || s.class == DieClass::Usable));
}

#[test]
fn zero_density_marks_no_default_site() {
    let mut sites = default_sites();
    let (totals, _) = settle_sites(&mut sites, ProbeArray { columns: 4, rows: 4 }, 767, default_seed());
    assert_eq!(totals.expected_defective, 0);
    assert_eq!(totals.expected_good, totals.geometric_usable);
    assert!(sites.iter().all(|s| !s.defective));
}

#[test]
fn standard_wafer_sizes_keep_site_totals_consistent() {
    for diameter in [50.0, 75.0, 100.0, 150.0, 200.0, 300.0, 450.0] {
        let setup = Setup {
            diameter,
            edge: (diameter * 0.02_f64).max(1.0),
            width: 4.0,
            height: 3.0,
            ..DEFAULT_SETUP
        };
        let mut sites = sites_of(&setup);
        let gross = count_class(&sites, DieClass::Usable);
        let rounded_good = (gross as f64 * murphy(12.0, 0.1)).round() as u64;
        let (totals, probe) = settle_sites(&mut sites, ProbeArray { columns: 4, rows: 4 }, rounded_good, 17);
        assert!(totals.geometric_usable > 0, "{diameter} mm");
        assert_eq!(totals.geometric_usable, gross, "{diameter} mm");
        assert_eq!(totals.expected_good + totals.expected_defective, totals.geometric_usable);
        assert_eq!(count_defective(&sites), totals.expected_defective, "{diameter} mm");
        assert!(probe.touchdown_count <= totals.geometric_usable);
    }
}

#[test]
fn geometry_and_probe_matrix_preserves_site_invariants() {
    let wide_die = Setup { width: 18.0, height: 4.5, column_lane: 0.2, row_lane: 0.08, ..DEFAULT_SETUP };
    let shifted_grid = Setup { die_at_origin: false, offset_x: 1.7, offset_y: -2.3, edge: 8.0, ..DEFAULT_SETUP };
    let square = Setup { diameter: 200.0, width: 6.5, height: 6.5, ..DEFAULT_SETUP };
    for (setup, probe) in [
        (wide_die, ProbeArray { columns: 8, rows: 2 }),
        (shifted_grid, ProbeArray { columns: 4, rows: 4 }),
        (square, ProbeArray { columns: 1, rows: 1 }),
    ] {
        let mut sites = sites_of(&setup);
        let gross = count_class(&sites, DieClass::Usable);
        let rounded_good = (gross as f64 * murphy(setup.width * setup.height, 0.1)).round() as u64;
        let (totals, summary) = settle_sites(&mut sites, probe, rounded_good, 5);
        assert_eq!(
            totals.geometric_usable + totals.partial + totals.edge_excluded,
            sites.len() as u64
        );
        assert_eq!(totals.expected_good + totals.expected_defective, totals.geometric_usable);
        assert!(summary.touchdown_count <= totals.geometric_usable);
        if probe.columns == 1 && probe.rows == 1 {
            assert_eq!(summary.touchdown_count, totals.geometric_usable);
        }
    }
}
