//! Parsed tileset data and its translation into models: glue-name
//! interning to dense identifiers, edge resolution, and construction of
//! seeded aTAM and kTAM models. Strengths, stoichiometries and rates are
//! already in the caller's fixed-point units.

use vstd::prelude::*;
use rand::rngs::SmallRng;
use crate::base::{
    Tile, Glue, Rate, NumTiles, GrowError, TileEdges, MAX_SITE_RATE, MAX_STRENGTH, seq_rate_sum,
};
use crate::canvas::CanvasType;
use crate::system::{Seed, System, seed_equiv, copy_seed};
use crate::atam::StaticATAM;
use crate::ktam::StaticKTAM;
use crate::ffs::{FFSRun, FFSRunConfig, config_ok, run_wf};

verus! {

/// A glue in the input: either a name to be interned or a number.
#[derive(Clone, Debug)]
pub enum GlueIdent {
    /// A named glue, mapped to a dense identifier during interning.
    Name(String),
    /// An already-numbered glue.
    Num(Glue),
}

/// One tile species of the input.
#[derive(Clone, Debug)]
pub struct TileSpec {
    /// Optional display name.
    pub name: Option<String>,
    /// The four edge glues, in (north, east, south, west) order.
    pub edges: Vec<GlueIdent>,
    /// Attachment propensity in rate units; the default applies when
    /// absent.
    pub stoic: Option<Rate>,
    /// Optional display colour name.
    pub color: Option<String>,
}

/// One bond declaration: a glue and its strength.
#[derive(Clone, Debug)]
pub struct Bond {
    /// The glue being given a strength.
    pub name: GlueIdent,
    /// The strength, in strength units.
    pub strength: u64,
}

/// Which model the tileset requests.
#[derive(Clone, Copy, PartialEq, Eq, Structural, Debug)]
pub enum ModelVariant {
    /// The kinetic Tile Assembly Model.
    KTAM,
    /// The abstract Tile Assembly Model.
    ATAM,
}

/// The option block of a tileset.
#[derive(Clone, Debug)]
pub struct Args {
    /// Canvas side length.
    pub size: usize,
    /// Fixed initial tiles.
    pub seed: Seed,
    /// Optional stopping size.
    pub smax: Option<NumTiles>,
    /// Display update interval, kept for callers that draw.
    pub update_rate: usize,
    /// aTAM attachment threshold, in strength units.
    pub tau: Option<u64>,
    /// Which model to run.
    pub model: Option<ModelVariant>,
    /// Which canvas boundary to use.
    pub canvas_type: Option<CanvasType>,
}

/// A parsed tileset: tiles, bonds, and options.
#[derive(Clone, Debug)]
pub struct TileSet {
    /// The tile species.
    pub tiles: Vec<TileSpec>,
    /// The bond declarations.
    pub bonds: Vec<Bond>,
    /// The option block.
    pub options: Args,
}

/// The interned glue names: the index of a name is its dense glue
/// identifier, with the null glue at index zero.
#[derive(Clone, Debug)]
pub struct GlueMap {
    /// The names, in identifier order.
    pub names: Vec<String>,
}

impl GlueMap {
    /// Names are distinct, and identifier zero is the null glue.
    pub open spec fn wf(self) -> bool {
        &&& self.names@.len() >= 1
        &&& forall|i: int, j: int|
            0 <= i < j < self.names@.len() ==> (#[trigger] self.names@[i])@ != (
            #[trigger] self.names@[j])@
    }

    /// Whether a name has been interned.
    pub open spec fn has_name(self, n: Seq<char>) -> bool {
        exists|i: int| 0 <= i < self.names@.len() && (#[trigger] self.names@[i])@ == n
    }

    /// The identifier of an interned name.
    pub open spec fn id_of(self, n: Seq<char>) -> int {
        choose|i: int| 0 <= i < self.names@.len() && (#[trigger] self.names@[i])@ == n
    }

    /// Look a name up, returning its identifier if interned.
    pub fn lookup(&self, n: &String) -> (r: Option<Glue>)
        requires
            self.wf(),
        ensures
            match r {
                Some(g) => self.has_name(n@) && g == self.id_of(n@) && g < self.names@.len(),
                None => !self.has_name(n@),
            },
    {
        let mut i: usize = 0;
        while i < self.names.len()
            invariant
                self.wf(),
                i <= self.names@.len(),
                forall|k: int| 0 <= k < i ==> (#[trigger] self.names@[k])@ != n@,
            decreases self.names@.len() - i,
        {
            if self.names[i] == *n {
                proof {
                    assert(self.names@[i as int]@ == n@);
                    assert forall|j: int|
                        0 <= j < self.names@.len() && (#[trigger] self.names@[j])@ == n@
                            implies j == i as int by {
                        if j < i {
                        } else if j > i {
                            assert(self.names@[i as int]@ != self.names@[j]@);
                        }
                    }
                }
                return Some(i);
            }
            i += 1;
        }
        None
    }
}

/// Whether a glue identifier, if it is a name, is interned in the map.
pub open spec fn ident_known(gm: GlueMap, gi: GlueIdent) -> bool {
    match gi {
        GlueIdent::Name(n) => gm.has_name(n@),
        GlueIdent::Num(g) => true,
    }
}

/// The canvas boundary a tileset requests, with the torus as default.
pub open spec fn effective_canvas_type(a: Args) -> CanvasType {
    match a.canvas_type {
        Some(v) => v,
        None => CanvasType::Periodic,
    }
}

/// The resolved identifier of a glue in the input, given the interned
/// names.
pub open spec fn resolve_glue(gm: GlueMap, gi: GlueIdent) -> int {
    match gi {
        GlueIdent::Name(n) => gm.id_of(n@),
        GlueIdent::Num(g) => g as int,
    }
}

/// A glue resolves inside a strength table of `nglues` entries: a name
/// must be interned and every identifier in range.
pub open spec fn edge_ok(gm: GlueMap, nglues: int, gi: GlueIdent) -> bool {
    match gi {
        GlueIdent::Name(n) => gm.has_name(n@) && gm.id_of(n@) < nglues,
        GlueIdent::Num(g) => (g as int) < nglues,
    }
}

/// Every tile has exactly four edges and each resolves in range.
pub open spec fn tiles_edges_ok(tiles: Seq<TileSpec>, gm: GlueMap, nglues: int) -> bool {
    forall|t: int|
        0 <= t < tiles.len() ==> (#[trigger] tiles[t]).edges@.len() == 4 && (forall|e: int|
            0 <= e < 4 ==> edge_ok(gm, nglues, #[trigger] tiles[t].edges@[e]))
}

/// The four edges of one tile, resolved to dense identifiers.
pub open spec fn resolved_edges(gm: GlueMap, t: TileSpec) -> TileEdges {
    (
        resolve_glue(gm, t.edges@[0]) as usize,
        resolve_glue(gm, t.edges@[1]) as usize,
        resolve_glue(gm, t.edges@[2]) as usize,
        resolve_glue(gm, t.edges@[3]) as usize,
    )
}

/// Interning more names keeps every already-interned identifier known.
pub proof fn lemma_ident_known_grows(g1: GlueMap, g2: GlueMap, gi: GlueIdent)
    requires
        g1.names@.len() <= g2.names@.len(),
        forall|k: int| 0 <= k < g1.names@.len() ==> #[trigger] g2.names@[k] == g1.names@[k],
        ident_known(g1, gi),
    ensures
        ident_known(g2, gi),
{
    match gi {
        GlueIdent::Name(n) => {
            let i = choose|i: int| 0 <= i < g1.names@.len() && (#[trigger] g1.names@[i])@ == n@;
            assert(g2.names@[i]@ == n@);
        }
        GlueIdent::Num(_) => {}
    }
}

/// The glue name of a named identifier, as a character sequence.
pub open spec fn ident_name(gi: GlueIdent) -> Seq<char> {
    match gi {
        GlueIdent::Name(n) => n@,
        GlueIdent::Num(_) => Seq::<char>::empty(),
    }
}

/// How many of the bonds below `k` are named.
pub open spec fn names_before(bonds: Seq<Bond>, k: int) -> int
    decreases k,
{
    if k <= 0 {
        0
    } else {
        names_before(bonds, k - 1) + (if bonds[k - 1].name is Name {
            1int
        } else {
            0int
        })
    }
}

/// The dense glue identifier the bond at `k` speaks of: a numbered glue
/// names itself, and a named glue gets the next fresh identifier, one
/// past the named bonds before it.
pub open spec fn bond_glue_index(bonds: Seq<Bond>, k: int) -> int {
    match bonds[k].name {
        GlueIdent::Name(_) => 1 + names_before(bonds, k),
        GlueIdent::Num(g) => g as int,
    }
}

/// Total number of edge entries over a tile list.
pub open spec fn total_edges(tiles: Seq<TileSpec>) -> int
    decreases tiles.len(),
{
    if tiles.len() == 0 {
        0
    } else {
        total_edges(tiles.drop_last()) + tiles.last().edges@.len()
    }
}

/// Edge totals are non-negative and grow with the prefix.
pub proof fn lemma_total_edges_take(tiles: Seq<TileSpec>, k: int)
    requires
        0 <= k < tiles.len(),
    ensures
        total_edges(tiles.take(k + 1)) == total_edges(tiles.take(k)) + tiles[k].edges@.len(),
        total_edges(tiles.take(k)) >= 0,
    decreases k,
{
    assert(tiles.take(k + 1).drop_last() =~= tiles.take(k));
    assert(tiles.take(k + 1).last() == tiles[k]);
    if k > 0 {
        lemma_total_edges_take(tiles, k - 1);
    } else {
        assert(tiles.take(0) =~= Seq::<TileSpec>::empty());
    }
}

/// A prefix never holds more edges than the whole list.
pub proof fn lemma_total_edges_le(tiles: Seq<TileSpec>, k: int)
    requires
        0 <= k <= tiles.len(),
    ensures
        total_edges(tiles.take(k)) <= total_edges(tiles),
        total_edges(tiles.take(k)) >= 0,
    decreases tiles.len() - k,
{
    if k == tiles.len() {
        assert(tiles.take(k) =~= tiles);
        if k > 0 {
            lemma_total_edges_take(tiles, k - 1);
        } else {
            assert(tiles.take(0) =~= Seq::<TileSpec>::empty());
        }
    } else {
        lemma_total_edges_le(tiles, k + 1);
        lemma_total_edges_take(tiles, k);
    }
}

/// At most one named bond per bond: the count is bounded by the prefix
/// length.
pub proof fn lemma_names_before_le(bonds: Seq<Bond>, k: int)
    requires
        k >= 0,
    ensures
        names_before(bonds, k) <= k,
        names_before(bonds, k) >= 0,
    decreases k,
{
    if k > 0 {
        lemma_names_before_le(bonds, k - 1);
    }
}

/// The number of a numbered glue identifier, and zero for a named one.
pub open spec fn ident_num(gi: GlueIdent) -> int {
    match gi {
        GlueIdent::Num(g) => g as int,
        GlueIdent::Name(_) => 0,
    }
}

/// A bond names the reserved null glue, or two bonds share a name.
pub open spec fn has_dup_bond_name(bonds: Seq<Bond>) -> bool {
    ||| exists|k: int|
        0 <= k < bonds.len() && (#[trigger] bonds[k]).name is Name && ident_name(bonds[k].name)
            == "0"@
    ||| exists|j: int, k: int|
        0 <= j < k < bonds.len() && (#[trigger] bonds[j]).name is Name && (
        #[trigger] bonds[k]).name is Name && ident_name(bonds[j].name) == ident_name(
            bonds[k].name,
        )
}

/// A bond gives the reserved null glue a non-zero strength, or two bonds
/// give the same glue identifier two different strengths.
pub open spec fn has_strength_conflict(bonds: Seq<Bond>) -> bool {
    ||| exists|k: int|
        0 <= k < bonds.len() && #[trigger] bond_glue_index(bonds, k) == 0 && bonds[k].strength
            != 0u64
    ||| exists|j: int, k: int|
        0 <= j < k < bonds.len() && #[trigger] bond_glue_index(bonds, j)
            == #[trigger] bond_glue_index(bonds, k) && bonds[j].strength != bonds[k].strength
}

/// Grow a strength table with empty slots until it covers index `upto`.
fn extend_strengths(strengths: &mut Vec<Option<u64>>, upto: usize)
    requires
        upto < usize::MAX,
    ensures
        final(strengths)@.len() > upto,
        final(strengths)@.len() >= old(strengths)@.len(),
        forall|i: int|
            0 <= i < old(strengths)@.len()
                ==> #[trigger] final(strengths)@[i] == old(strengths)@[i],
        forall|i: int|
            old(strengths)@.len() <= i < final(strengths)@.len()
                ==> (#[trigger] final(strengths)@[i]) is None,
{
    while strengths.len() <= upto
        invariant
            upto < usize::MAX,
            strengths@.len() >= old(strengths)@.len(),
            forall|i: int|
                0 <= i < old(strengths)@.len() ==> #[trigger] strengths@[i] == old(strengths)@[i],
            forall|i: int|
                old(strengths)@.len() <= i < strengths@.len() ==> (#[trigger] strengths@[i])
                    is None,
        decreases upto + 1 - strengths@.len(),
    {
        strengths.push(None);
    }
}

/// Some named bond below `bi` carries exactly the name `nm`.
pub open spec fn name_from_bonds(bonds: Seq<Bond>, bi: int, nm: Seq<char>) -> bool {
    exists|j: int|
        0 <= j < bi && (#[trigger] bonds[j]).name is Name && ident_name(bonds[j].name) == nm
}

/// A name found below `bi` is still found below any larger bound.
pub proof fn lemma_name_from_bonds_grow(bonds: Seq<Bond>, bi: int, bi2: int, nm: Seq<char>)
    requires
        name_from_bonds(bonds, bi, nm),
        bi <= bi2,
    ensures
        name_from_bonds(bonds, bi2, nm),
{
    let j = choose|j: int|
        0 <= j < bi && (#[trigger] bonds[j]).name is Name && ident_name(bonds[j].name) == nm;
    assert(0 <= j < bi2 && bonds[j].name is Name && ident_name(bonds[j].name) == nm);
}

/// The invariant of the bond-interning scan after the first `bi` bonds:
/// the map holds the null name and exactly the named bonds' names at
/// their dense identifiers, the strength table records every processed
/// bond's strength at its identifier with nothing else set, and the
/// processed prefix is free of duplicate names and strength conflicts.
pub open spec fn glue_scan_inv(bonds: Seq<Bond>, gm: GlueMap, s: Seq<Option<u64>>, bi: int) -> bool {
    &&& gm.wf()
    &&& s.len() >= gm.names@.len()
    &&& s.len() >= 1
    &&& s[0] == Some(0u64)
    &&& gm.names@[0]@ == "0"@
    &&& gm.names@.len() == 1 + names_before(bonds, bi)
    &&& forall|j: int|
        0 <= j < bi && (#[trigger] bonds[j]).name is Name ==> bond_glue_index(bonds, j)
            < gm.names@.len() && gm.names@[bond_glue_index(bonds, j)]@ == ident_name(
            bonds[j].name,
        )
    &&& forall|i: int|
        #![trigger gm.names@[i]]
        1 <= i < gm.names@.len() ==> name_from_bonds(bonds, bi, gm.names@[i]@)
    &&& forall|j: int|
        0 <= j < bi ==> 0 <= #[trigger] bond_glue_index(bonds, j) < s.len() && s[bond_glue_index(
            bonds,
            j,
        )] == Some(bonds[j].strength)
    &&& forall|i: int|
        1 <= i < s.len() && (#[trigger] s[i]) is Some ==> exists|j: int|
            0 <= j < bi && #[trigger] bond_glue_index(bonds, j) == i && Some(bonds[j].strength)
                == s[i]
    &&& forall|j: int|
        0 <= j < bi ==> !((#[trigger] bonds[j]).name is Name && ident_name(bonds[j].name)
            == "0"@)
    &&& forall|j: int, k: int|
        0 <= j < k < bi ==> !((#[trigger] bonds[j]).name is Name && (#[trigger] bonds[k]).name
            is Name && ident_name(bonds[j].name) == ident_name(bonds[k].name))
    &&& forall|j: int|
        0 <= j < bi && #[trigger] bond_glue_index(bonds, j) == 0 ==> bonds[j].strength == 0u64
    &&& forall|j: int, k: int|
        0 <= j < k < bi && #[trigger] bond_glue_index(bonds, j) == #[trigger] bond_glue_index(
            bonds,
            k,
        ) ==> bonds[j].strength == bonds[k].strength
}

/// Stepping the scan over a fresh named bond keeps the invariant: the
/// name goes to the next identifier and the strength is recorded there.
#[verifier::rlimit(100)]
proof fn lemma_glue_scan_name_step(
    bonds: Seq<Bond>,
    gm0: GlueMap,
    gm1: GlueMap,
    s0: Seq<Option<u64>>,
    s_ext: Seq<Option<u64>>,
    s1: Seq<Option<u64>>,
    bi: int,
)
    requires
        glue_scan_inv(bonds, gm0, s0, bi),
        0 <= bi < bonds.len(),
        bonds[bi].name is Name,
        forall|k: int| 0 <= k < gm0.names@.len() ==> (#[trigger] gm0.names@[k])@ != ident_name(
            bonds[bi].name,
        ),
        gm1.names@.len() == gm0.names@.len() + 1,
        forall|k: int| 0 <= k < gm0.names@.len() ==> #[trigger] gm1.names@[k] == gm0.names@[k],
        gm1.names@[gm0.names@.len() as int]@ == ident_name(bonds[bi].name),
        s_ext.len() > gm0.names@.len(),
        s_ext.len() >= s0.len(),
        forall|i: int| 0 <= i < s0.len() ==> #[trigger] s_ext[i] == s0[i],
        forall|i: int| s0.len() <= i < s_ext.len() ==> (#[trigger] s_ext[i]) is None,
        (s_ext[gm0.names@.len() as int] == Some(bonds[bi].strength) && s1 == s_ext) || (
        s_ext[gm0.names@.len() as int] is None && s1 == s_ext.update(
            gm0.names@.len() as int,
            Some(bonds[bi].strength),
        )),
    ensures
        glue_scan_inv(bonds, gm1, s1, bi + 1),
{
    let gluenum = gm0.names@.len() as int;
    assert(bond_glue_index(bonds, bi) == 1 + names_before(bonds, bi));
    assert(bond_glue_index(bonds, bi) == gluenum);
    assert(names_before(bonds, bi + 1) == names_before(bonds, bi) + 1);
    assert(gm1.wf()) by {
        assert forall|i: int, j: int|
            0 <= i < j < gm1.names@.len() implies (#[trigger] gm1.names@[i])@ != (
        #[trigger] gm1.names@[j])@ by {
            if j == gluenum {
                assert(gm1.names@[i] == gm0.names@[i]);
            }
        }
    }
    assert forall|i: int|
        #![trigger gm1.names@[i]]
        1 <= i < gm1.names@.len() implies name_from_bonds(bonds, bi + 1, gm1.names@[i]@) by {
        if i == gluenum {
            assert(bonds[bi].name is Name && ident_name(bonds[bi].name) == gm1.names@[i]@);
        } else {
            assert(gm1.names@[i] == gm0.names@[i]);
            assert(name_from_bonds(bonds, bi, gm0.names@[i]@));
            lemma_name_from_bonds_grow(bonds, bi, bi + 1, gm1.names@[i]@);
        }
    }
    assert forall|j: int|
        0 <= j < bi + 1 implies 0 <= #[trigger] bond_glue_index(bonds, j) < s1.len()
        && s1[bond_glue_index(bonds, j)] == Some(bonds[j].strength) by {
        if j < bi {
            assert(s0[bond_glue_index(bonds, j)] == Some(bonds[j].strength));
            assert(s_ext[bond_glue_index(bonds, j)] == s0[bond_glue_index(bonds, j)]);
        } else {
            assert(s1[gluenum] == Some(bonds[bi].strength));
        }
    }
    assert forall|i: int|
        1 <= i < s1.len() && (#[trigger] s1[i]) is Some implies exists|j: int|
        0 <= j < bi + 1 && #[trigger] bond_glue_index(bonds, j) == i && Some(bonds[j].strength)
            == s1[i] by {
        if i == gluenum {
            assert(bond_glue_index(bonds, bi) == i && Some(bonds[bi].strength) == s1[i]);
        } else {
            if i < s0.len() {
                assert(s1[i] == s0[i]);
                let j = choose|j: int|
                    0 <= j < bi && #[trigger] bond_glue_index(bonds, j) == i && Some(
                        bonds[j].strength,
                    ) == s0[i];
                assert(bond_glue_index(bonds, j) == i && Some(bonds[j].strength) == s1[i]);
            } else {
                assert(s1[i] == s_ext[i]);
                assert(s_ext[i] is None);
            }
        }
    }
    assert forall|j: int|
        0 <= j < bi + 1 implies !((#[trigger] bonds[j]).name is Name && ident_name(bonds[j].name)
        == "0"@) by {
        if j == bi {
            assert(gm0.names@[0]@ == "0"@);
        }
    }
    assert forall|j: int, k: int|
        0 <= j < k < bi + 1 implies !((#[trigger] bonds[j]).name is Name && (
    #[trigger] bonds[k]).name is Name && ident_name(bonds[j].name) == ident_name(
        bonds[k].name,
    )) by {
        if k == bi && bonds[j].name is Name {
            assert(gm0.names@[bond_glue_index(bonds, j)]@ == ident_name(bonds[j].name));
        }
    }
    assert forall|j: int|
        0 <= j < bi + 1 && #[trigger] bond_glue_index(bonds, j) == 0 implies bonds[j].strength
        == 0u64 by {
        if j == bi {
            assert(bond_glue_index(bonds, bi) == gluenum && gluenum >= 1);
        }
    }
    assert forall|j: int, k: int|
        0 <= j < k < bi + 1 && #[trigger] bond_glue_index(bonds, j) == #[trigger] bond_glue_index(
            bonds,
            k,
        ) implies bonds[j].strength == bonds[k].strength by {
        if k == bi {
            assert(s0[bond_glue_index(bonds, j)] == Some(bonds[j].strength));
            assert(s_ext[bond_glue_index(bonds, j)] == s0[bond_glue_index(bonds, j)]);
            assert((s_ext[gluenum] == Some(bonds[bi].strength)) || s_ext[gluenum] is None);
        }
    }
}

/// Stepping the scan over a numbered bond keeps the invariant: the
/// strength is recorded at the bond's own identifier.
#[verifier::rlimit(100)]
proof fn lemma_glue_scan_num_step(
    bonds: Seq<Bond>,
    gm: GlueMap,
    s0: Seq<Option<u64>>,
    s_ext: Seq<Option<u64>>,
    s1: Seq<Option<u64>>,
    bi: int,
    gi: int,
)
    requires
        glue_scan_inv(bonds, gm, s0, bi),
        0 <= bi < bonds.len(),
        bonds[bi].name is Num,
        gi == bond_glue_index(bonds, bi),
        0 <= gi,
        s_ext.len() > gi,
        s_ext.len() >= s0.len(),
        forall|i: int| 0 <= i < s0.len() ==> #[trigger] s_ext[i] == s0[i],
        forall|i: int| s0.len() <= i < s_ext.len() ==> (#[trigger] s_ext[i]) is None,
        (s_ext[gi] == Some(bonds[bi].strength) && s1 == s_ext) || (s_ext[gi] is None && s1
            == s_ext.update(gi, Some(bonds[bi].strength))),
    ensures
        glue_scan_inv(bonds, gm, s1, bi + 1),
{
    assert(names_before(bonds, bi + 1) == names_before(bonds, bi));
    assert forall|j: int|
        0 <= j < bi + 1 && (#[trigger] bonds[j]).name is Name implies bond_glue_index(bonds, j)
        < gm.names@.len() && gm.names@[bond_glue_index(bonds, j)]@ == ident_name(
        bonds[j].name,
    ) by {
    }
    assert forall|i: int|
        #![trigger gm.names@[i]]
        1 <= i < gm.names@.len() implies name_from_bonds(bonds, bi + 1, gm.names@[i]@) by {
        assert(name_from_bonds(bonds, bi, gm.names@[i]@));
        lemma_name_from_bonds_grow(bonds, bi, bi + 1, gm.names@[i]@);
    }
    assert forall|j: int|
        0 <= j < bi + 1 implies !((#[trigger] bonds[j]).name is Name && ident_name(bonds[j].name)
        == "0"@) by {
        if j == bi {
            assert(!(bonds[j].name is Name));
        }
    }
    assert forall|j: int, k: int|
        0 <= j < k < bi + 1 implies !((#[trigger] bonds[j]).name is Name && (
    #[trigger] bonds[k]).name is Name && ident_name(bonds[j].name) == ident_name(
        bonds[k].name,
    )) by {
        if k == bi {
            assert(!(bonds[k].name is Name));
        }
    }
    assert forall|j: int|
        0 <= j < bi + 1 implies 0 <= #[trigger] bond_glue_index(bonds, j) < s1.len()
        && s1[bond_glue_index(bonds, j)] == Some(bonds[j].strength) by {
        if j < bi {
            assert(s0[bond_glue_index(bonds, j)] == Some(bonds[j].strength));
            assert(s_ext[bond_glue_index(bonds, j)] == s0[bond_glue_index(bonds, j)]);
        } else {
            assert(s1[gi] == Some(bonds[bi].strength));
        }
    }
    assert forall|i: int|
        1 <= i < s1.len() && (#[trigger] s1[i]) is Some implies exists|j: int|
        0 <= j < bi + 1 && #[trigger] bond_glue_index(bonds, j) == i && Some(bonds[j].strength)
            == s1[i] by {
        if i == gi {
            assert(bond_glue_index(bonds, bi) == i && Some(bonds[bi].strength) == s1[i]);
        } else {
            if i < s0.len() {
                assert(s1[i] == s0[i]);
                let j = choose|j: int|
                    0 <= j < bi && #[trigger] bond_glue_index(bonds, j) == i && Some(
                        bonds[j].strength,
                    ) == s0[i];
                assert(bond_glue_index(bonds, j) == i && Some(bonds[j].strength) == s1[i]);
            } else {
                assert(s1[i] == s_ext[i]);
                assert(s_ext[i] is None);
            }
        }
    }
    assert forall|j: int|
        0 <= j < bi + 1 && #[trigger] bond_glue_index(bonds, j) == 0 implies bonds[j].strength
        == 0u64 by {
        if j == bi && gi == 0 {
            assert(s_ext[0] == Some(0u64));
        }
    }
    assert forall|j: int, k: int|
        0 <= j < k < bi + 1 && #[trigger] bond_glue_index(bonds, j) == #[trigger] bond_glue_index(
            bonds,
            k,
        ) implies bonds[j].strength == bonds[k].strength by {
        if k == bi {
            assert(s0[bond_glue_index(bonds, j)] == Some(bonds[j].strength));
            assert(s_ext[bond_glue_index(bonds, j)] == s0[bond_glue_index(bonds, j)]);
            assert((s_ext[gi] == Some(bonds[bi].strength)) || s_ext[gi] is None);
        }
    }
}

impl TileSet {
    /// Check the machine limits of the interning tables: every numbered
    /// glue must sit below the index ceiling, and the bonds and tile edges
    /// together must not exhaust the identifier space.
    pub fn check_glue_limits(&self) -> (b: bool)
        ensures
            b == ((forall|k: int|
                0 <= k < self.bonds@.len() ==> ident_num((#[trigger] self.bonds@[k]).name)
                    < usize::MAX) && 1 + self.bonds@.len() + total_edges(self.tiles@)
                < usize::MAX),
    {
        proof {
            lemma_total_edges_le(self.tiles@, self.tiles@.len() as int);
            assert(self.tiles@.take(self.tiles@.len() as int) =~= self.tiles@);
        }
        if self.bonds.len() >= usize::MAX - 1 {
            return false;
        }
        let mut k: usize = 0;
        while k < self.bonds.len()
            invariant
                k <= self.bonds@.len(),
                forall|j: int|
                    0 <= j < k ==> ident_num((#[trigger] self.bonds@[j]).name) < usize::MAX,
            decreases self.bonds@.len() - k,
        {
            match &self.bonds[k].name {
                GlueIdent::Num(g) => {
                    if *g == usize::MAX {
                        return false;
                    }
                }
                GlueIdent::Name(_) => {}
            }
            k += 1;
        }
        let mut t: usize = 1 + self.bonds.len();
        let mut ti: usize = 0;
        proof {
            assert(self.tiles@.take(0) =~= Seq::<TileSpec>::empty());
        }
        while ti < self.tiles.len()
            invariant
                ti <= self.tiles@.len(),
                t == 1 + self.bonds@.len() + total_edges(self.tiles@.take(ti as int)),
                t < usize::MAX,
            decreases self.tiles@.len() - ti,
        {
            proof {
                lemma_total_edges_take(self.tiles@, ti as int);
                lemma_total_edges_le(self.tiles@, ti as int + 1);
                assert(self.tiles@.take(self.tiles@.len() as int) =~= self.tiles@);
            }
            let el = self.tiles[ti].edges.len();
            if el > usize::MAX - 1 - t {
                return false;
            }
            t = t + el;
            ti += 1;
        }
        proof {
            assert(self.tiles@.take(self.tiles@.len() as int) =~= self.tiles@);
        }
        true
    }

    /// Intern every glue of the bond list and the tile edges into dense
    /// identifiers, recording each glue's strength: identifier zero is the
    /// null glue with strength zero, named bonds get fresh identifiers in
    /// bond order, and glues first seen on a tile edge get the default
    /// strength of one. Success is owed exactly when no bond names the
    /// null glue or repeats a name, and no glue is given two strengths.
    #[verifier::rlimit(100)]
    pub fn number_glues(&self) -> (res: Result<(GlueMap, Vec<u64>), GrowError>)
        requires
            forall|k: int|
                0 <= k < self.bonds@.len() ==> ident_num((#[trigger] self.bonds@[k]).name)
                    < usize::MAX,
            1 + self.bonds@.len() + total_edges(self.tiles@) < usize::MAX,
        ensures
            (res is Ok) <==> (!has_dup_bond_name(self.bonds@) && !has_strength_conflict(
                self.bonds@,
            )),
            res == Err::<(GlueMap, Vec<u64>), GrowError>(GrowError::DuplicateGlueName)
                ==> has_dup_bond_name(self.bonds@),
            res == Err::<(GlueMap, Vec<u64>), GrowError>(GrowError::InconsistentGlueStrength)
                ==> has_strength_conflict(self.bonds@),
            match res {
                Ok(r) => {
                    &&& r.0.wf()
                    &&& r.1@.len() >= r.0.names@.len()
                    &&& r.1@.len() >= 1
                    &&& r.1@[0] == 0u64
                    &&& r.0.names@[0]@ == "0"@
                    &&& forall|k: int|
                        0 <= k < self.bonds@.len() ==> 0 <= #[trigger] bond_glue_index(
                            self.bonds@,
                            k,
                        ) < r.1@.len() && r.1@[bond_glue_index(self.bonds@, k)]
                            == self.bonds@[k].strength
                    &&& forall|k: int|
                        0 <= k < self.bonds@.len() && (#[trigger] self.bonds@[k]).name is Name
                            ==> bond_glue_index(self.bonds@, k) < r.0.names@.len()
                            && r.0.names@[bond_glue_index(self.bonds@, k)]@ == ident_name(
                            self.bonds@[k].name,
                        )
                    &&& forall|b: int|
                        0 <= b < self.bonds@.len() ==> ident_known(
                            r.0,
                            (#[trigger] self.bonds@[b]).name,
                        )
                    &&& forall|t: int, e: int|
                        0 <= t < self.tiles@.len() && 0 <= e < self.tiles@[t].edges@.len()
                            ==> ident_known(r.0, #[trigger] self.tiles@[t].edges@[e])
                },
                Err(e) => e == GrowError::DuplicateGlueName || e
                    == GrowError::InconsistentGlueStrength,
            },
    {
        let ghost bonds = self.bonds@;
        let mut names: Vec<String> = Vec::new();
        let mut strengths: Vec<Option<u64>> = Vec::new();
        let zero_name: String = String::from_str("0");
        names.push(zero_name);
        strengths.push(Some(0u64));
        let gm0 = GlueMap { names };
        let mut gm = gm0;
        let mut bi: usize = 0;
        while bi < self.bonds.len()
            invariant
                bonds == self.bonds@,
                forall|k: int|
                    0 <= k < bonds.len() ==> ident_num((#[trigger] bonds[k]).name) < usize::MAX,
                1 + bonds.len() + total_edges(self.tiles@) < usize::MAX,
                bi <= bonds.len(),
                glue_scan_inv(bonds, gm, strengths@, bi as int),
            decreases bonds.len() - bi,
        {
            let bond = &self.bonds[bi];
            let ghost gm_before = gm;
            let ghost str_before = strengths@;
            match &bond.name {
                GlueIdent::Name(n) => {
                    proof {
                        assert(ident_name(bonds[bi as int].name) == n@);
                        assert(bond_glue_index(bonds, bi as int) == 1 + names_before(
                            bonds,
                            bi as int,
                        ));
                    }
                    match gm.lookup(n) {
                        Some(i) => {
                            proof {
                                if i == 0 {
                                    assert(ident_name(bonds[bi as int].name) == "0"@);
                                } else {
                                    assert(name_from_bonds(bonds, bi as int, gm.names@[i as int]@));
                                    let j = choose|j: int|
                                        0 <= j < bi && (#[trigger] bonds[j]).name is Name
                                            && ident_name(bonds[j].name) == gm.names@[i as int]@;
                                    assert(ident_name(bonds[j].name) == ident_name(
                                        bonds[bi as int].name,
                                    ));
                                }
                                assert(has_dup_bond_name(bonds));
                            }
                            return Err(GrowError::DuplicateGlueName);
                        }
                        None => {
                            let gluenum: usize = gm.names.len();
                            proof {
                                assert(forall|k: int|
                                    0 <= k < gm.names@.len() ==> (#[trigger] gm.names@[k])@ != n@);
                                assert(gluenum == bond_glue_index(bonds, bi as int));
                            }
                            proof {
                                lemma_names_before_le(bonds, bi as int);
                                lemma_total_edges_le(self.tiles@, self.tiles@.len() as int);
                                assert(gluenum < usize::MAX);
                            }
                            gm.names.push(n.clone());
                            extend_strengths(&mut strengths, gluenum);
                            let ghost str_ext = strengths@;
                            match strengths[gluenum] {
                                Some(s) => {
                                    if s != bond.strength {
                                        proof {
                                            assert(gluenum as int >= 1);
                                            assert(gluenum < str_before.len());
                                            assert(str_ext[gluenum as int] == str_before[gluenum
                                                as int]);
                                            let j = choose|j: int|
                                                0 <= j < bi && #[trigger] bond_glue_index(
                                                    bonds,
                                                    j,
                                                ) == gluenum as int && Some(bonds[j].strength)
                                                    == str_before[gluenum as int];
                                            assert(bonds[j].strength != bonds[bi as int].strength);
                                            assert(has_strength_conflict(bonds));
                                        }
                                        return Err(GrowError::InconsistentGlueStrength);
                                    }
                                }
                                None => {
                                    strengths.set(gluenum, Some(bond.strength));
                                }
                            }
                            proof {
                                lemma_glue_scan_name_step(
                                    bonds,
                                    gm_before,
                                    gm,
                                    str_before,
                                    str_ext,
                                    strengths@,
                                    bi as int,
                                );
                            }
                        }
                    }
                }
                GlueIdent::Num(g) => {
                    let gi: usize = *g;
                    proof {
                        assert(bond_glue_index(bonds, bi as int) == gi as int);
                        assert(ident_num(bonds[bi as int].name) < usize::MAX);
                    }
                    extend_strengths(&mut strengths, gi);
                    let ghost str_ext = strengths@;
                    match strengths[gi] {
                        Some(s) => {
                            if s != bond.strength {
                                proof {
                                    if gi == 0 {
                                        assert(str_ext[0] == str_before[0]);
                                        assert(s == 0u64);
                                        assert(bond_glue_index(bonds, bi as int) == 0
                                            && bonds[bi as int].strength != 0u64);
                                    } else {
                                        assert(gi < str_before.len());
                                        assert(str_ext[gi as int] == str_before[gi as int]);
                                        let j = choose|j: int|
                                            0 <= j < bi && #[trigger] bond_glue_index(bonds, j)
                                                == gi as int && Some(bonds[j].strength)
                                                == str_before[gi as int];
                                        assert(bonds[j].strength != bonds[bi as int].strength);
                                    }
                                    assert(has_strength_conflict(bonds));
                                }
                                return Err(GrowError::InconsistentGlueStrength);
                            }
                        }
                        None => {
                            strengths.set(gi, Some(bond.strength));
                        }
                    }
                    proof {
                        lemma_glue_scan_num_step(
                            bonds,
                            gm,
                            str_before,
                            str_ext,
                            strengths@,
                            bi as int,
                            gi as int,
                        );
                    }
                }
            }
            bi += 1;
        }
        proof {
            assert(!has_dup_bond_name(bonds)) by {
                if exists|k: int|
                    0 <= k < bonds.len() && (#[trigger] bonds[k]).name is Name && ident_name(
                        bonds[k].name,
                    ) == "0"@ {
                    let k = choose|k: int|
                        0 <= k < bonds.len() && (#[trigger] bonds[k]).name is Name && ident_name(
                            bonds[k].name,
                        ) == "0"@;
                    assert(false);
                }
                if exists|j: int, k: int|
                    0 <= j < k < bonds.len() && (#[trigger] bonds[j]).name is Name && (
                    #[trigger] bonds[k]).name is Name && ident_name(bonds[j].name) == ident_name(
                        bonds[k].name,
                    ) {
                    let (j, k) = choose|j: int, k: int|
                        0 <= j < k < bonds.len() && (#[trigger] bonds[j]).name is Name && (
                        #[trigger] bonds[k]).name is Name && ident_name(bonds[j].name)
                            == ident_name(bonds[k].name);
                    assert(false);
                }
            }
            assert(!has_strength_conflict(bonds)) by {
                if exists|k: int|
                    0 <= k < bonds.len() && #[trigger] bond_glue_index(bonds, k) == 0
                        && bonds[k].strength != 0u64 {
                    let k = choose|k: int|
                        0 <= k < bonds.len() && #[trigger] bond_glue_index(bonds, k) == 0
                            && bonds[k].strength != 0u64;
                    assert(false);
                }
                if exists|j: int, k: int|
                    0 <= j < k < bonds.len() && #[trigger] bond_glue_index(bonds, j)
                        == #[trigger] bond_glue_index(bonds, k) && bonds[j].strength
                        != bonds[k].strength {
                    let (j, k) = choose|j: int, k: int|
                        0 <= j < k < bonds.len() && #[trigger] bond_glue_index(bonds, j)
                            == #[trigger] bond_glue_index(bonds, k) && bonds[j].strength
                            != bonds[k].strength;
                    assert(false);
                }
            }
        }
        proof {
            lemma_names_before_le(bonds, bonds.len() as int);
            assert(self.tiles@.take(0) =~= Seq::<TileSpec>::empty());
        }
        let mut ti: usize = 0;
        while ti < self.tiles.len()
            invariant
                bonds == self.bonds@,
                1 + bonds.len() + total_edges(self.tiles@) < usize::MAX,
                gm.names@.len() <= 1 + bonds.len() + total_edges(self.tiles@.take(ti as int)),
                gm.wf(),
                strengths@.len() >= gm.names@.len(),
                strengths@.len() >= 1,
                strengths@[0] == Some(0u64),
                gm.names@[0]@ == "0"@,
                ti <= self.tiles@.len(),
                forall|j: int|
                    0 <= j < bonds.len() ==> 0 <= #[trigger] bond_glue_index(bonds, j)
                        < strengths@.len() && strengths@[bond_glue_index(bonds, j)] == Some(
                        bonds[j].strength,
                    ),
                forall|j: int|
                    0 <= j < bonds.len() && (#[trigger] bonds[j]).name is Name
                        ==> bond_glue_index(bonds, j) < gm.names@.len()
                        && gm.names@[bond_glue_index(bonds, j)]@ == ident_name(bonds[j].name),
                forall|b: int|
                    0 <= b < bonds.len() ==> ident_known(gm, (#[trigger] bonds[b]).name),
                forall|t: int, e: int|
                    0 <= t < ti && 0 <= e < self.tiles@[t].edges@.len() ==> ident_known(
                        gm,
                        #[trigger] self.tiles@[t].edges@[e],
                    ),
            decreases self.tiles@.len() - ti,
        {
            let tile = &self.tiles[ti];
            let mut ei: usize = 0;
            while ei < tile.edges.len()
                invariant
                    bonds == self.bonds@,
                    1 + bonds.len() + total_edges(self.tiles@) < usize::MAX,
                    gm.names@.len() <= 1 + bonds.len() + total_edges(self.tiles@.take(ti as int))
                        + ei,
                    gm.wf(),
                    strengths@.len() >= gm.names@.len(),
                    strengths@.len() >= 1,
                    strengths@[0] == Some(0u64),
                    gm.names@[0]@ == "0"@,
                    ti < self.tiles@.len(),
                    tile == &self.tiles@[ti as int],
                    ei <= tile.edges@.len(),
                    forall|j: int|
                        0 <= j < bonds.len() ==> 0 <= #[trigger] bond_glue_index(bonds, j)
                            < strengths@.len() && strengths@[bond_glue_index(bonds, j)] == Some(
                            bonds[j].strength,
                        ),
                    forall|j: int|
                        0 <= j < bonds.len() && (#[trigger] bonds[j]).name is Name
                            ==> bond_glue_index(bonds, j) < gm.names@.len()
                            && gm.names@[bond_glue_index(bonds, j)]@ == ident_name(bonds[j].name),
                    forall|b: int|
                        0 <= b < bonds.len() ==> ident_known(gm, (#[trigger] bonds[b]).name),
                    forall|t: int, e: int|
                        0 <= t < ti && 0 <= e < self.tiles@[t].edges@.len() ==> ident_known(
                            gm,
                            #[trigger] self.tiles@[t].edges@[e],
                        ),
                    forall|e: int|
                        0 <= e < ei ==> ident_known(gm, #[trigger] tile.edges@[e]),
                decreases tile.edges@.len() - ei,
            {
                let ghost gm_before = gm;
                let ghost str_before = strengths@;
                match &tile.edges[ei] {
                    GlueIdent::Name(n) => {
                        match gm.lookup(n) {
                            Some(_) => {}
                            None => {
                                let gluenum: usize = gm.names.len();
                                proof {
                                    assert(forall|k: int|
                                        0 <= k < gm.names@.len() ==> (#[trigger] gm.names@[k])@
                                            != n@);
                                }
                                proof {
                                    lemma_total_edges_take(self.tiles@, ti as int);
                                    lemma_total_edges_le(self.tiles@, ti as int + 1);
                                    assert(gluenum < usize::MAX);
                                }
                                gm.names.push(n.clone());
                                extend_strengths(&mut strengths, gluenum);
                                match strengths[gluenum] {
                                    Some(_) => {}
                                    None => {
                                        strengths.set(gluenum, Some(1u64));
                                    }
                                }
                                proof {
                                    assert(gm.wf()) by {
                                        assert forall|i: int, j: int|
                                            0 <= i < j < gm.names@.len()
                                                implies (#[trigger] gm.names@[i])@ != (
                                            #[trigger] gm.names@[j])@ by {
                                            if j == gm.names@.len() - 1 {
                                                assert(gm.names@[j]@ == n@);
                                            }
                                        }
                                    }
                                    assert forall|j: int|
                                        0 <= j < bonds.len() implies 0 <= #[trigger] bond_glue_index(
                                        bonds,
                                        j,
                                    ) < strengths@.len() && strengths@[bond_glue_index(bonds, j)]
                                        == Some(bonds[j].strength) by {
                                        assert(str_before[bond_glue_index(bonds, j)] == Some(
                                            bonds[j].strength,
                                        ));
                                    }
                                }
                            }
                        }
                    }
                    GlueIdent::Num(g) => {
                        let gi: usize = *g;
                        if gi < usize::MAX {
                            extend_strengths(&mut strengths, gi);
                            match strengths[gi] {
                                Some(_) => {}
                                None => {
                                    strengths.set(gi, Some(1u64));
                                }
                            }
                            proof {
                                assert forall|j: int|
                                    0 <= j < bonds.len() implies 0 <= #[trigger] bond_glue_index(
                                    bonds,
                                    j,
                                ) < strengths@.len() && strengths@[bond_glue_index(bonds, j)]
                                    == Some(bonds[j].strength) by {
                                    assert(str_before[bond_glue_index(bonds, j)] == Some(
                                        bonds[j].strength,
                                    ));
                                }
                            }
                        }
                    }
                }
                proof {
                    assert(forall|k: int|
                        0 <= k < gm_before.names@.len() ==> #[trigger] gm.names@[k]
                            == gm_before.names@[k]);
                    assert forall|b: int|
                        0 <= b < bonds.len() implies ident_known(
                        gm,
                        (#[trigger] bonds[b]).name,
                    ) by {
                        lemma_ident_known_grows(gm_before, gm, bonds[b].name);
                    }
                    assert forall|t: int, e: int|
                        0 <= t < ti && 0 <= e < self.tiles@[t].edges@.len() implies ident_known(
                        gm,
                        #[trigger] self.tiles@[t].edges@[e],
                    ) by {
                        lemma_ident_known_grows(gm_before, gm, self.tiles@[t].edges@[e]);
                    }
                    assert forall|e: int|
                        0 <= e < ei + 1 implies ident_known(gm, #[trigger] tile.edges@[e]) by {
                        if e < ei {
                            lemma_ident_known_grows(gm_before, gm, tile.edges@[e]);
                        } else {
                            match tile.edges@[e] {
                                GlueIdent::Name(n) => {
                                    assert(gm.has_name(n@) || gm.names@[gm.names@.len() - 1]@
                                        == n@);
                                }
                                GlueIdent::Num(_) => {}
                            }
                        }
                    }
                }
                ei += 1;
            }
            proof {
                lemma_total_edges_take(self.tiles@, ti as int);
            }
            ti += 1;
        }
        let mut dense: Vec<u64> = Vec::new();
        let mut si: usize = 0;
        while si < strengths.len()
            invariant
                si <= strengths@.len(),
                dense@.len() == si,
                strengths@.len() >= 1,
                strengths@[0] == Some(0u64),
                forall|i: int|
                    0 <= i < si ==> #[trigger] dense@[i] == (match strengths@[i] {
                        Some(s) => s,
                        None => 1u64,
                    }),
            decreases strengths@.len() - si,
        {
            match strengths[si] {
                Some(s) => dense.push(s),
                None => dense.push(1u64),
            }
            si += 1;
        }
        proof {
            assert(dense@[0] == 0u64);
            assert forall|k: int|
                0 <= k < bonds.len() implies 0 <= #[trigger] bond_glue_index(bonds, k)
                < dense@.len() && dense@[bond_glue_index(bonds, k)] == bonds[k].strength by {
                assert(strengths@[bond_glue_index(bonds, k)] == Some(bonds[k].strength));
            }
        }
        Ok((gm, dense))
    }

    /// Resolve every tile's four edges to dense glue identifiers,
    /// prepending the all-null row of the empty species. Unknown names,
    /// tiles without exactly four edges, and identifiers beyond the
    /// strength table are errors.
    pub fn tile_edge_process(&self, gm: &GlueMap, nglues: usize) -> (res: Result<
        Vec<TileEdges>,
        GrowError,
    >)
        requires
            gm.wf(),
        ensures
            (res is Ok) <==> (nglues >= 1 && tiles_edges_ok(self.tiles@, *gm, nglues as int)),
            match res {
                Ok(edges) => {
                    &&& edges@.len() == self.tiles@.len() + 1
                    &&& edges@[0] == (0usize, 0usize, 0usize, 0usize)
                    &&& forall|i: int|
                        0 <= i < self.tiles@.len() ==> #[trigger] edges@[i + 1] == resolved_edges(
                            *gm,
                            self.tiles@[i],
                        )
                    &&& forall|i: int| 0 <= i < edges@.len() ==> {
                        &&& (#[trigger] edges@[i]).0 < nglues
                        &&& edges@[i].1 < nglues
                        &&& edges@[i].2 < nglues
                        &&& edges@[i].3 < nglues
                    }
                },
                Err(e) => e == GrowError::BadConfig,
            },
    {
        if nglues == 0 {
            return Err(GrowError::BadConfig);
        }
        let mut out: Vec<TileEdges> = Vec::new();
        out.push((0usize, 0usize, 0usize, 0usize));
        let mut ti: usize = 0;
        while ti < self.tiles.len()
            invariant
                gm.wf(),
                nglues >= 1,
                ti <= self.tiles@.len(),
                out@.len() == ti + 1,
                out@[0] == (0usize, 0usize, 0usize, 0usize),
                forall|t: int|
                    0 <= t < ti ==> (#[trigger] self.tiles@[t]).edges@.len() == 4 && (forall|
                        e: int,
                    |
                        0 <= e < 4 ==> edge_ok(*gm, nglues as int, #[trigger] self.tiles@[t].edges@[e])),
                forall|i: int|
                    0 <= i < ti ==> #[trigger] out@[i + 1] == resolved_edges(
                        *gm,
                        self.tiles@[i],
                    ),
                forall|i: int| 0 <= i < out@.len() ==> {
                    &&& (#[trigger] out@[i]).0 < nglues
                    &&& out@[i].1 < nglues
                    &&& out@[i].2 < nglues
                    &&& out@[i].3 < nglues
                },
            decreases self.tiles@.len() - ti,
        {
            let tile = &self.tiles[ti];
            if tile.edges.len() != 4 {
                proof {
                    assert(!tiles_edges_ok(self.tiles@, *gm, nglues as int));
                }
                return Err(GrowError::BadConfig);
            }
            let r0 = self.resolve_one(gm, &tile.edges[0], nglues);
            let r1 = self.resolve_one(gm, &tile.edges[1], nglues);
            let r2 = self.resolve_one(gm, &tile.edges[2], nglues);
            let r3 = self.resolve_one(gm, &tile.edges[3], nglues);
            let g0 = match r0 {
                Ok(g) => g,
                Err(e) => {
                    proof {
                        assert(!edge_ok(*gm, nglues as int, self.tiles@[ti as int].edges@[0]));
                        assert(!tiles_edges_ok(self.tiles@, *gm, nglues as int));
                    }
                    return Err(GrowError::BadConfig);
                }
            };
            let g1 = match r1 {
                Ok(g) => g,
                Err(e) => {
                    proof {
                        assert(!edge_ok(*gm, nglues as int, self.tiles@[ti as int].edges@[1]));
                        assert(!tiles_edges_ok(self.tiles@, *gm, nglues as int));
                    }
                    return Err(GrowError::BadConfig);
                }
            };
            let g2 = match r2 {
                Ok(g) => g,
                Err(e) => {
                    proof {
                        assert(!edge_ok(*gm, nglues as int, self.tiles@[ti as int].edges@[2]));
                        assert(!tiles_edges_ok(self.tiles@, *gm, nglues as int));
                    }
                    return Err(GrowError::BadConfig);
                }
            };
            let g3 = match r3 {
                Ok(g) => g,
                Err(e) => {
                    proof {
                        assert(!edge_ok(*gm, nglues as int, self.tiles@[ti as int].edges@[3]));
                        assert(!tiles_edges_ok(self.tiles@, *gm, nglues as int));
                    }
                    return Err(GrowError::BadConfig);
                }
            };
            out.push((g0, g1, g2, g3));
            proof {
                assert(out@[ti as int + 1] == resolved_edges(*gm, self.tiles@[ti as int]));
            }
            ti += 1;
        }
        Ok(out)
    }

    /// Resolve one glue identifier, checking it against the table size.
    fn resolve_one(&self, gm: &GlueMap, gi: &GlueIdent, nglues: usize) -> (res: Result<
        Glue,
        GrowError,
    >)
        requires
            gm.wf(),
        ensures
            (res is Ok) <==> edge_ok(*gm, nglues as int, *gi),
            match res {
                Ok(g) => g < nglues && g == resolve_glue(*gm, *gi),
                Err(e) => e == GrowError::BadConfig,
            },
    {
        let g: usize = match gi {
            GlueIdent::Name(n) => {
                match gm.lookup(n) {
                    Some(g) => g,
                    None => {
                        return Err(GrowError::BadConfig);
                    }
                }
            }
            GlueIdent::Num(g) => *g,
        };
        if g >= nglues {
            return Err(GrowError::BadConfig);
        }
        Ok(g)
    }

    /// The per-species attachment rates: zero for the empty species, then
    /// each tile's stoichiometric rate, with the default for tiles that
    /// give none.
    pub fn tile_stoics(&self, default_rate: Rate) -> (r: Vec<Rate>)
        ensures
            r@.len() == self.tiles@.len() + 1,
            r@[0] == 0u64,
            forall|i: int|
                0 <= i < self.tiles@.len() ==> #[trigger] r@[i + 1] == (
                match self.tiles@[i].stoic {
                    Some(s) => s,
                    None => default_rate,
                }),
    {
        let mut r: Vec<Rate> = Vec::new();
        r.push(0u64);
        let mut i: usize = 0;
        while i < self.tiles.len()
            invariant
                i <= self.tiles@.len(),
                r@.len() == i + 1,
                r@[0] == 0u64,
                forall|k: int|
                    0 <= k < i ==> #[trigger] r@[k + 1] == (match self.tiles@[k].stoic {
                        Some(s) => s,
                        None => default_rate,
                    }),
            decreases self.tiles@.len() - i,
        {
            match &self.tiles[i].stoic {
                Some(s) => r.push(*s),
                None => r.push(default_rate),
            }
            i += 1;
        }
        r
    }

    /// Build the seeded kTAM model this tileset describes, over the given
    /// detachment-rate table and fixed-point unit. Every table bound that
    /// the model needs is checked here, so success is owed exactly when
    /// the interning succeeds and every value is within range.
    pub fn into_static_seeded_ktam(
        &self,
        detach_rates: Vec<Rate>,
        default_rate: Rate,
        rate_scale: u64,
    ) -> (res: Result<StaticKTAM, GrowError>)
        ensures
            match res {
                Ok(m) => {
                    &&& m.swf()
                    &&& m.nspecies() == self.tiles@.len() + 1
                    &&& m.tile_rates@[0] == 0u64
                    &&& forall|i: int|
                        0 <= i < self.tiles@.len() ==> #[trigger] m.tile_rates@[i + 1] == (
                        match self.tiles@[i].stoic {
                            Some(s) => s,
                            None => default_rate,
                        })
                    &&& m.detach_rates@ == detach_rates@
                    &&& m.rate_scale == rate_scale
                    &&& seed_equiv(m.seed, self.options.seed)
                    &&& !has_dup_bond_name(self.bonds@)
                    &&& !has_strength_conflict(self.bonds@)
                },
                Err(e) => {
                    ||| e == GrowError::DuplicateGlueName
                    ||| e == GrowError::InconsistentGlueStrength
                    ||| e == GrowError::BadConfig
                    ||| e == GrowError::RateOverflow
                },
            },
            res == Err::<StaticKTAM, GrowError>(GrowError::DuplicateGlueName)
                ==> has_dup_bond_name(self.bonds@),
            res == Err::<StaticKTAM, GrowError>(GrowError::InconsistentGlueStrength)
                ==> has_strength_conflict(self.bonds@),
    {
        if !self.check_glue_limits() {
            return Err(GrowError::BadConfig);
        }
        let pair = self.number_glues()?;
        let (gm, gs) = pair;
        let edges = self.tile_edge_process(&gm, gs.len())?;
        let stoics = self.tile_stoics(default_rate);
        if rate_scale < 0x2_0000 {
            return Err(GrowError::BadConfig);
        }
        if detach_rates.len() == 0 {
            return Err(GrowError::BadConfig);
        }
        check_strengths(&gs, detach_rates.len())?;
        check_rates(&stoics)?;
        check_detach(&detach_rates)?;
        let m = StaticKTAM::new(stoics, edges, gs, detach_rates, rate_scale);
        let seed = copy_seed(&self.options.seed);
        Ok(m.with_seed(seed))
    }

    /// Build the seeded aTAM model this tileset describes. The threshold
    /// `tau` must be present in the options.
    pub fn into_static_seeded_atam(&self, default_rate: Rate) -> (res: Result<
        StaticATAM,
        GrowError,
    >)
        ensures
            match res {
                Ok(m) => {
                    &&& m.swf()
                    &&& m.nspecies() == self.tiles@.len() + 1
                    &&& m.tile_rates@[0] == 0u64
                    &&& forall|i: int|
                        0 <= i < self.tiles@.len() ==> #[trigger] m.tile_rates@[i + 1] == (
                        match self.tiles@[i].stoic {
                            Some(s) => s,
                            None => default_rate,
                        })
                    &&& self.options.tau == Some(m.tau)
                    &&& m.tau >= 1
                    &&& seed_equiv(m.seed, self.options.seed)
                    &&& !has_dup_bond_name(self.bonds@)
                    &&& !has_strength_conflict(self.bonds@)
                },
                Err(e) => {
                    ||| e == GrowError::DuplicateGlueName
                    ||| e == GrowError::InconsistentGlueStrength
                    ||| e == GrowError::BadConfig
                    ||| e == GrowError::RateOverflow
                },
            },
            res == Err::<StaticATAM, GrowError>(GrowError::DuplicateGlueName)
                ==> has_dup_bond_name(self.bonds@),
            res == Err::<StaticATAM, GrowError>(GrowError::InconsistentGlueStrength)
                ==> has_strength_conflict(self.bonds@),
            self.options.tau is None || self.options.tau == Some(0u64) ==> res == Err::<
                StaticATAM,
                GrowError,
            >(GrowError::BadConfig),
    {
        let tau: u64 = match self.options.tau {
            Some(t) => t,
            None => {
                return Err(GrowError::BadConfig);
            }
        };
        if tau == 0 {
            return Err(GrowError::BadConfig);
        }
        if !self.check_glue_limits() {
            return Err(GrowError::BadConfig);
        }
        let pair = self.number_glues()?;
        let (gm, gs) = pair;
        let edges = self.tile_edge_process(&gm, gs.len())?;
        let stoics = self.tile_stoics(default_rate);
        check_strengths(&gs, usize::MAX)?;
        check_rates(&stoics)?;
        let m = StaticATAM::new(stoics, edges, gs, tau);
        let seed = copy_seed(&self.options.seed);
        Ok(m.with_seed(seed))
    }

    /// Run forward flux sampling for this tileset: the kTAM model is
    /// built from it, the canvas side and boundary are taken from the
    /// options, and a run for the aTAM is refused, since a model without
    /// detachments has no meaningful crossing probabilities.
    pub fn run_ffs(
        &self,
        config: &FFSRunConfig,
        detach_rates: Vec<Rate>,
        default_rate: Rate,
        rate_scale: u64,
        rng: &mut SmallRng,
    ) -> (res: Result<FFSRun, GrowError>)
        ensures
            match res {
                Ok(r) => {
                    &&& self.options.model != Some(ModelVariant::ATAM)
                    &&& exists|sys: StaticKTAM|
                        sys.swf() && #[trigger] run_wf(
                            r,
                            &sys,
                            self.options.size as int,
                            effective_canvas_type(self.options),
                        )
                },
                Err(e) => true,
            },
            res == Err::<FFSRun, GrowError>(GrowError::FFSCannotRunATAM) <==> self.options.model
                == Some(ModelVariant::ATAM),
    {
        match self.options.model {
            Some(ModelVariant::ATAM) => {
                return Err(GrowError::FFSCannotRunATAM);
            }
            _ => {}
        }
        let sys = self.into_static_seeded_ktam(detach_rates, default_rate, rate_scale)?;
        let mut c2 = *config;
        c2.canvas_size = self.options.size;
        c2.canvas_type = match self.options.canvas_type {
            Some(v) => v,
            None => CanvasType::Periodic,
        };
        let r = FFSRun::create(&sys, &c2, rng)?;
        Ok(r)
    }
}

/// Check every strength against the strength cap and the detachment-table
/// size.
fn check_strengths(gs: &Vec<u64>, detach_len: usize) -> (res: Result<(), GrowError>)
    ensures
        (res is Ok) <==> forall|g: int|
            0 <= g < gs@.len() ==> (#[trigger] gs@[g]) <= MAX_STRENGTH && 4 * gs@[g] < detach_len,
        res is Err ==> res == Err::<(), GrowError>(GrowError::RateOverflow),
{
    let mut i: usize = 0;
    while i < gs.len()
        invariant
            i <= gs@.len(),
            forall|g: int|
                0 <= g < i ==> (#[trigger] gs@[g]) <= MAX_STRENGTH && 4 * gs@[g] < detach_len,
        decreases gs@.len() - i,
    {
        let s = gs[i];
        if s > MAX_STRENGTH {
            return Err(GrowError::RateOverflow);
        }
        if s > (usize::MAX as u64) / 4 || 4 * (s as usize) >= detach_len {
            return Err(GrowError::RateOverflow);
        }
        i += 1;
    }
    Ok(())
}

/// Check that the attachment rates sum within the per-site cap.
fn check_rates(rates: &Vec<Rate>) -> (res: Result<(), GrowError>)
    ensures
        (res is Ok) <==> seq_rate_sum(rates@) <= MAX_SITE_RATE,
        res is Err ==> res == Err::<(), GrowError>(GrowError::RateOverflow),
{
    let mut sum: u64 = 0;
    let mut i: usize = 0;
    proof {
        assert(rates@.take(0) =~= Seq::<u64>::empty());
    }
    while i < rates.len()
        invariant
            i <= rates@.len(),
            sum == seq_rate_sum(rates@.take(i as int)),
            sum <= MAX_SITE_RATE,
        decreases rates@.len() - i,
    {
        proof {
            assert(rates@.take(i as int + 1).drop_last() =~= rates@.take(i as int));
            assert(rates@.take(i as int + 1).last() == rates@[i as int]);
        }
        let r = rates[i];
        if r > MAX_SITE_RATE || sum > MAX_SITE_RATE - r {
            proof {
                crate::base::lemma_seq_rate_sum_take_le(rates@, i as int + 1);
                assert(seq_rate_sum(rates@.take(i as int + 1)) == seq_rate_sum(
                    rates@.take(i as int),
                ) + r);
            }
            return Err(GrowError::RateOverflow);
        }
        sum = sum + r;
        i += 1;
    }
    proof {
        assert(rates@.take(rates@.len() as int) =~= rates@);
    }
    Ok(())
}

/// Check every detachment rate against the per-site cap.
fn check_detach(rates: &Vec<Rate>) -> (res: Result<(), GrowError>)
    ensures
        (res is Ok) <==> forall|s: int|
            0 <= s < rates@.len() ==> (#[trigger] rates@[s]) <= MAX_SITE_RATE,
        res is Err ==> res == Err::<(), GrowError>(GrowError::RateOverflow),
{
    let mut i: usize = 0;
    while i < rates.len()
        invariant
            i <= rates@.len(),
            forall|s: int| 0 <= s < i ==> (#[trigger] rates@[s]) <= MAX_SITE_RATE,
        decreases rates@.len() - i,
    {
        if rates[i] > MAX_SITE_RATE {
            return Err(GrowError::RateOverflow);
        }
        i += 1;
    }
    Ok(())
}


impl FFSRun {
    /// Run forward flux sampling for a tileset: the model and canvas
    /// shape come from the tileset, everything else from the
    /// configuration.
    pub fn create_from_tileset(
        tileset: &TileSet,
        config: &FFSRunConfig,
        detach_rates: Vec<Rate>,
        default_rate: Rate,
        rate_scale: u64,
        rng: &mut SmallRng,
    ) -> (res: Result<FFSRun, GrowError>)
        ensures
            res == Err::<FFSRun, GrowError>(GrowError::FFSCannotRunATAM) <==> tileset.options.model
                == Some(ModelVariant::ATAM),
    {
        let r = tileset.run_ffs(config, detach_rates, default_rate, rate_scale, rng)?;
        Ok(r)
    }
}

} // verus!
