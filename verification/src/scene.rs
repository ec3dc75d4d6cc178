//! Semantic colour roles of die cells in a rendered wafer map.

use vstd::prelude::*;

use crate::model::DieClass;
use crate::sites::{class_count, defective_count, DieSite};

verus! {

/// Semantic color role of one die cell in a rendered scene.
#[derive(Clone, Copy, Debug, PartialEq, Eq, Structural)]
pub enum CellTone {
    /// Expected good die.
    Productive,
    /// Statistically expected defective die.
    Defective,
    /// Die intersecting the usable-radius boundary.
    Boundary,
    /// Candidate wholly inside the edge-exclusion band.
    Excluded,
}

/// A marked site is shown as defective; otherwise its class decides.
pub open spec fn tone_of(site: DieSite) -> CellTone {
    if site.defective {
        CellTone::Defective
    } else {
        match site.class {
            DieClass::Usable => CellTone::Productive,
            DieClass::Partial => CellTone::Boundary,
            DieClass::EdgeExclusion => CellTone::Excluded,
        }
    }
}

/// Number of cells with the given tone.
pub open spec fn tone_count(tones: Seq<CellTone>, tone: CellTone) -> nat
    decreases tones.len(),
{
    if tones.len() == 0 {
        0
    } else {
        tone_count(tones.drop_last(), tone) + if tones.last() == tone {
            1nat
        } else {
            0nat
        }
    }
}

/// The tone of one site.
pub fn cell_tone(site: DieSite) -> (tone: CellTone)
    ensures
        tone == tone_of(site),
{
    if site.defective {
        CellTone::Defective
    } else {
        match site.class {
            DieClass::Usable => CellTone::Productive,
            DieClass::Partial => CellTone::Boundary,
            DieClass::EdgeExclusion => CellTone::Excluded,
        }
    }
}

/// The tones of all sites, in order.
pub fn site_tones(sites: &[DieSite]) -> (tones: Vec<CellTone>)
    ensures
        tones@ == sites@.map_values(|site: DieSite| tone_of(site)),
{
    let mut tones: Vec<CellTone> = Vec::new();
    let mut i: usize = 0;
    while i < sites.len()
        invariant
            i <= sites@.len(),
            tones@ == sites@.take(i as int).map_values(|site: DieSite| tone_of(site)),
        decreases sites.len() - i,
    {
        tones.push(cell_tone(sites[i]));
        i = i + 1;
        proof {
            assert(tones@ =~= sites@.take(i as int).map_values(|site: DieSite| tone_of(site)));
        }
    }
    proof {
        assert(sites@.take(sites@.len() as int) =~= sites@);
    }
    tones
}

/// Counts the cells with the requested tone.
pub fn count_tone(tones: &[CellTone], tone: CellTone) -> (count: usize)
    ensures
        count == tone_count(tones@, tone),
{
    let mut count: usize = 0;
    let mut i: usize = 0;
    while i < tones.len()
        invariant
            i <= tones@.len(),
            count == tone_count(tones@.take(i as int), tone),
            count <= i,
        decreases tones.len() - i,
    {
        proof {
            assert(tones@.take(i + 1).drop_last() =~= tones@.take(i as int));
        }
        if tones[i] == tone {
            count = count + 1;
        }
        i = i + 1;
    }
    proof {
        assert(tones@.take(tones@.len() as int) =~= tones@);
    }
    count
}

/// When markers sit only on usable sites, the map shows every usable site as
/// productive or defective, every marked site as defective, every partial site
/// as boundary and every edge-band site as excluded.
pub proof fn lemma_tones_match_classes(sites: Seq<DieSite>)
    requires
        forall|i: int|
            0 <= i < sites.len() && (#[trigger] sites[i]).defective ==> sites[i].class
                == DieClass::Usable,
    ensures
        ({
            let tones = sites.map_values(|site: DieSite| tone_of(site));
            &&& tone_count(tones, CellTone::Productive) + tone_count(tones, CellTone::Defective)
                == class_count(sites, DieClass::Usable)
            &&& tone_count(tones, CellTone::Defective) == defective_count(sites)
            &&& tone_count(tones, CellTone::Boundary) == class_count(sites, DieClass::Partial)
            &&& tone_count(tones, CellTone::Excluded) == class_count(
                sites,
                DieClass::EdgeExclusion,
            )
        }),
    decreases sites.len(),
{
    if sites.len() > 0 {
        let prev = sites.drop_last();
        assert forall|i: int|
            0 <= i < prev.len() && (#[trigger] prev[i]).defective implies prev[i].class
            == DieClass::Usable by {
            assert(prev[i] == sites[i]);
        }
        lemma_tones_match_classes(prev);
        let tones = sites.map_values(|site: DieSite| tone_of(site));
        assert(tones.drop_last() =~= prev.map_values(|site: DieSite| tone_of(site)));
        assert(tones.last() == tone_of(sites.last()));
        assert(sites.last() == sites[sites.len() - 1]);
    }
}

} // verus!
