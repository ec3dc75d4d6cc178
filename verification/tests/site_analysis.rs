use die_yield::{
    analysis_seed, cell_tone, count_class, count_defective, count_tone, expected_counts,
    mark_expected_defects, mix, settle_sites, site_tones, summarize_probe, CellTone, DieClass,
    DieSite, ProbeArray, SplitMix64,
};

fn site(column: i32, row: i32, class: DieClass) -> DieSite {
    DieSite { column, row, class, defective: false }
}

/// Classes "PUUEUUUPUU" on one row, columns 0..10.
fn row_of_sites() -> Vec<DieSite> {
    "PUUEUUUPUU"
        .chars()
        .enumerate()
        .map(|(index, letter)| {
            let class = match letter {
                'U' => DieClass::Usable,
                'P' => DieClass::Partial,
                _ => DieClass::EdgeExclusion,
            };
            site(index as i32, 0, class)
        })
        .collect()
}

#[test]
fn mixing_matches_reference_values() {
    assert_eq!(mix(0, 0), 0xe220_a839_7b1d_cdaf);
    assert_eq!(mix(1, 2), 0x910a_2dec_8902_5cc1);
    assert_eq!(analysis_seed(&[]), 0x6a09_e667_f3bc_c909);
    assert_eq!(analysis_seed(&[1, 2, 3]), 0xd26c_3324_5b5d_0347);
}

#[test]
fn splitmix_sequence_is_reproducible() {
    let mut random = SplitMix64::new(0);
    assert_eq!(random.next(), 0x6e78_9e6a_a1b9_65f4);
    assert_eq!(random.next(), 0x06c4_5d18_8009_454f);
    assert_eq!(random.next(), 0xf88b_b8a8_724c_81ec);
    let mut bounded = SplitMix64::new(42);
    let draws: Vec<usize> = (0..5).map(|_| bounded.index(10)).collect();
    assert_eq!(draws, vec![1, 8, 4, 0, 2]);
}

#[test]
fn classes_are_counted() {
    let sites = row_of_sites();
    assert_eq!(count_class(&sites, DieClass::Usable), 7);
    assert_eq!(count_class(&sites, DieClass::Partial), 2);
    assert_eq!(count_class(&sites, DieClass::EdgeExclusion), 1);
    assert_eq!(count_defective(&sites), 0);
}

#[test]
fn defect_markers_are_reproducible_and_on_usable_sites() {
    let mut first = row_of_sites();
    mark_expected_defects(&mut first, 3, 7);
    let marked: Vec<usize> = (0..first.len()).filter(|&i| first[i].defective).collect();
    assert_eq!(marked, vec![2, 5, 8]);

    let mut second = row_of_sites();
    mark_expected_defects(&mut second, 3, 7);
    assert_eq!(first, second);
    for (before, after) in row_of_sites().iter().zip(first.iter()) {
        assert_eq!(before.class, after.class);
        assert_eq!(before.column, after.column);
    }
}

#[test]
fn defect_markers_are_capped_at_usable_sites() {
    let mut sites = row_of_sites();
    mark_expected_defects(&mut sites, 100, 7);
    assert_eq!(count_defective(&sites), 7);
    assert!(sites.iter().all(|s| !s.defective || s.class == DieClass::Usable));

    let mut none = row_of_sites();
    mark_expected_defects(&mut none, 0, 7);
    assert_eq!(count_defective(&none), 0);
}

#[test]
fn expected_counts_split_the_gross_count() {
    assert_eq!(expected_counts(767, 708), (708, 59));
    assert_eq!(expected_counts(767, 767), (767, 0));
    assert_eq!(expected_counts(767, 10_000), (767, 0));
    assert_eq!(expected_counts(0, 0), (0, 0));
}

#[test]
fn probe_blocks_are_counted_from_the_lowest_usable_site() {
    let sites = vec![
        site(-3, -3, DieClass::Usable),
        site(-2, -3, DieClass::Usable),
        site(1, -3, DieClass::Usable),
        site(-3, 2, DieClass::Usable),
        site(-10, -10, DieClass::Partial),
        site(5, 5, DieClass::EdgeExclusion),
    ];
    let summary = summarize_probe(ProbeArray { columns: 2, rows: 2 }, &sites);
    assert_eq!(summary.sites_per_touchdown, 4);
    // Blocks: (0,0) twice, (2,0), (0,2).
    assert_eq!(summary.touchdown_count, 3);

    let single = summarize_probe(ProbeArray { columns: 1, rows: 1 }, &sites);
    assert_eq!(single.touchdown_count, 4);
    let wide = summarize_probe(ProbeArray { columns: 8, rows: 8 }, &sites);
    assert_eq!(wide.touchdown_count, 1);
}

#[test]
fn probe_summary_without_usable_sites_has_no_touchdowns() {
    let sites = vec![site(0, 0, DieClass::Partial)];
    let summary = summarize_probe(ProbeArray { columns: 4, rows: 4 }, &sites);
    assert_eq!(summary.sites_per_touchdown, 16);
    assert_eq!(summary.touchdown_count, 0);
    assert_eq!(summarize_probe(ProbeArray { columns: 4, rows: 4 }, &[]).touchdown_count, 0);
}

#[test]
fn settled_totals_are_self_consistent() {
    let mut sites = row_of_sites();
    let (totals, probe) = settle_sites(&mut sites, ProbeArray { columns: 2, rows: 1 }, 5, 7);
    assert_eq!(totals.geometric_usable, 7);
    assert_eq!(totals.expected_good, 5);
    assert_eq!(totals.expected_defective, 2);
    assert_eq!(totals.partial, 2);
    assert_eq!(totals.edge_excluded, 1);
    assert_eq!(
        totals.geometric_usable + totals.partial + totals.edge_excluded,
        sites.len() as u64
    );
    assert_eq!(count_defective(&sites), totals.expected_defective);
    assert_eq!(probe.sites_per_touchdown, 2);
    // Usable columns 1,2,4,5,6,8,9 from lowest 1: blocks 0,0,1,2,2,3,4.
    assert_eq!(probe.touchdown_count, 5);
    assert!(probe.touchdown_count <= totals.geometric_usable);
}

#[test]
fn zero_loss_marks_nothing() {
    let mut sites = row_of_sites();
    let (totals, _) = settle_sites(&mut sites, ProbeArray { columns: 4, rows: 4 }, 7, 99);
    assert_eq!(totals.expected_defective, 0);
    assert_eq!(totals.expected_good, totals.geometric_usable);
    assert!(sites.iter().all(|s| !s.defective));
}

#[test]
fn tones_preserve_site_counts() {
    let mut sites = row_of_sites();
    let (totals, _) = settle_sites(&mut sites, ProbeArray { columns: 4, rows: 4 }, 4, 3);
    let tones = site_tones(&sites);
    assert_eq!(tones.len(), sites.len());
    assert_eq!(count_tone(&tones, CellTone::Productive) as u64, totals.expected_good);
    assert_eq!(count_tone(&tones, CellTone::Defective) as u64, totals.expected_defective);
    assert_eq!(count_tone(&tones, CellTone::Boundary) as u64, totals.partial);
    assert_eq!(count_tone(&tones, CellTone::Excluded) as u64, totals.edge_excluded);
}

#[test]
fn a_marked_site_is_shown_defective() {
    let mut marked = site(0, 0, DieClass::Usable);
    assert_eq!(cell_tone(marked), CellTone::Productive);
    marked.defective = true;
    assert_eq!(cell_tone(marked), CellTone::Defective);
    assert_eq!(cell_tone(site(0, 0, DieClass::Partial)), CellTone::Boundary);
    assert_eq!(cell_tone(site(0, 0, DieClass::EdgeExclusion)), CellTone::Excluded);
}

#[test]
fn earlier_markers_do_not_change_which_sites_are_chosen() {
    let mut fresh = row_of_sites();
    mark_expected_defects(&mut fresh, 3, 7);
    let mut premarked = row_of_sites();
    premarked[0].defective = true;
    premarked[2].defective = true;
    mark_expected_defects(&mut premarked, 3, 7);
    for index in 0..fresh.len() {
        let expected = fresh[index].defective || index == 0 || index == 2;
        assert_eq!(premarked[index].defective, expected, "site {index}");
        assert_eq!(premarked[index].class, fresh[index].class);
    }
}

#[test]
fn touchdowns_cover_every_gross_die() {
    let mut sites = Vec::new();
    for row in -6..6 {
        for column in -7..7 {
            let class = if column * column + row * row <= 25 {
                DieClass::Usable
            } else {
                DieClass::Partial
            };
            sites.push(site(column, row, class));
        }
    }
    let gross = count_class(&sites, DieClass::Usable);
    for (columns, rows) in [(1, 1), (2, 2), (3, 1), (4, 5), (16, 16)] {
        let summary = summarize_probe(ProbeArray { columns, rows }, &sites);
        assert!(gross <= summary.touchdown_count * summary.sites_per_touchdown);
        assert!(summary.touchdown_count <= gross);
    }
    assert_eq!(summarize_probe(ProbeArray { columns: 1, rows: 1 }, &sites).touchdown_count, gross);
}
