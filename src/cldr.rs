//! CLDR keyboard descriptions and their conversion into layers.
use vstd::prelude::*;
use indexmap::IndexMap;
use crate::iso_key::{lemma_position_name_injective, IsoKey, RawIsoKey, ISO_KEY_COUNT};
use crate::keys::{encode_key, opt_chars, serialize, KeyValue};
use crate::models::{
    desktop_entries, entries_insert, insert_desktop_map, lemma_insert_present, insert_mobile_map, lemma_entries_insert,
    mobile_entries, names_unique, new_desktop_map, new_mobile_map, DesktopKeyMap, DesktopModes, Mode,
    MobileKeyMap, MobileModes,
};
use crate::modifiers::{mode_name_of, parse_modifiers};
use crate::text::{contains_seq, str_contains};

verus! {

#[derive(Debug, Clone, PartialEq, Default)]
pub struct Name {
    pub value: String,
}

/// One `<map>` element: the output of one key position.
#[derive(Debug, Clone, PartialEq, Default)]
pub struct MapElement {
    pub iso: String,
    pub to: String,
    pub transform: Option<String>,
    pub long_press: Option<String>,
}

/// One `<keyMap>` element: the key outputs under one modifier combination.
#[derive(Debug, Clone, PartialEq, Default)]
pub struct KeyMap {
    pub keys: Vec<MapElement>,
    pub modifiers: Option<String>,
}

#[derive(Debug, Clone, PartialEq, Default)]
pub struct Version {
    pub platform: String,
    pub number: String,
}

#[derive(Debug, Clone, PartialEq, Default)]
pub struct Transform {
    pub from: String,
    pub to: String,
}

#[derive(Debug, Clone, PartialEq, Default)]
pub struct Transforms {
    pub type_: String,
    pub values: Vec<Transform>,
}

#[derive(Debug, Clone, PartialEq, Default)]
pub struct Names {
    pub values: Vec<Name>,
}

/// A CLDR `<keyboard>` element.
#[derive(Debug, Clone, PartialEq, Default)]
pub struct Keyboard {
    pub locale: String,
    pub names: Vec<Names>,
    pub version: Version,
    pub key_maps: Vec<KeyMap>,
    pub transforms: Option<Vec<Transforms>>,
}

/// Which kind of layers a keyboard is converted into.
#[derive(Debug, Clone, Copy, PartialEq, Eq)]
pub enum Platform {
    Desktop,
    Mobile,
}

// ---------------------------------------------------------------------------
// Layers
// ---------------------------------------------------------------------------

/// The ordinal of the internal position named `iso`, if there is one.
pub open spec fn named_position(iso: Seq<char>) -> Option<nat> {
    if exists|k: IsoKey| k.spec_name() == iso {
        Some((choose|k: IsoKey| k.spec_name() == iso).ordinal())
    } else {
        None
    }
}

/// The row of the CLDR position named `iso`, if there is one.
pub open spec fn named_row(iso: Seq<char>) -> Option<nat> {
    if exists|k: RawIsoKey| k.spec_name() == iso {
        Some((choose|k: RawIsoKey| k.spec_name() == iso).row())
    } else {
        None
    }
}

/// How a key's output is stored in a layer.
pub open spec fn cell_of(e: MapElement) -> Option<Seq<char>> {
    Some(encode_key(Some(e.to@)))
}

/// The desktop layer that `keys` describe: for each internal position, the
/// output of the last entry naming it, or `None` where no entry does.
pub open spec fn desktop_layer_of(keys: Seq<MapElement>) -> Seq<Option<Seq<char>>>
    decreases keys.len(),
{
    if keys.len() == 0 {
        Seq::new(49, |i: int| None)
    } else {
        let prev = desktop_layer_of(keys.drop_last());
        match named_position(keys.last().iso@) {
            Some(p) => prev.update(p as int, cell_of(keys.last())),
            None => prev,
        }
    }
}

/// The outputs of the entries of `keys` in CLDR row `row`, in source order.
pub open spec fn row_cells(keys: Seq<MapElement>, row: nat) -> Seq<Option<Seq<char>>>
    decreases keys.len(),
{
    if keys.len() == 0 {
        Seq::empty()
    } else {
        row_cells(keys.drop_last(), row) + if named_row(keys.last().iso@) == Some(row) {
            seq![cell_of(keys.last())]
        } else {
            Seq::empty()
        }
    }
}

/// The rows from `row` on (E, D, C, B, A) that hold at least one key.
pub open spec fn mobile_rows_from(keys: Seq<MapElement>, row: nat) -> Seq<Seq<Option<Seq<char>>>>
    decreases 5 - row,
{
    if row >= 5 {
        Seq::empty()
    } else {
        (if row_cells(keys, row).len() > 0 {
            seq![row_cells(keys, row)]
        } else {
            Seq::empty()
        }) + mobile_rows_from(keys, row + 1)
    }
}

/// The mobile layer that `keys` describe.
pub open spec fn mobile_layer_of(keys: Seq<MapElement>) -> Seq<Seq<Option<Seq<char>>>> {
    mobile_rows_from(keys, 0)
}

proof fn lemma_iso_name_unique(k1: IsoKey, k2: IsoKey)
    requires
        k1.spec_name() == k2.spec_name(),
    ensures
        k1.ordinal() == k2.ordinal(),
{
    lemma_position_name_injective(k1.row(), k1.column(), k2.row(), k2.column());
}

proof fn lemma_raw_name_unique(k1: RawIsoKey, k2: RawIsoKey)
    requires
        k1.spec_name() == k2.spec_name(),
    ensures
        k1.row() == k2.row(),
{
    lemma_position_name_injective(k1.row(), k1.column(), k2.row(), k2.column());
}

/// The internal position that a CLDR position name stands for: parsed in the
/// CLDR grid, then mapped to the internal one.
fn position_of(iso: &String) -> (r: Option<usize>)
    ensures
        match r {
            Some(p) => named_position(iso@) == Some(p as nat) && p < ISO_KEY_COUNT,
            None => named_position(iso@) is None,
        },
{
    match RawIsoKey::parse(iso.as_str()) {
        None => None,
        Some(raw) => match raw.to_iso() {
            None => {
                assert forall|k: IsoKey| k.spec_name() != iso@ by {
                    if k.spec_name() == iso@ {
                        lemma_position_name_injective(k.row(), k.column(), raw.row(), raw.column());
                    }
                }
                None
            },
            Some(k) => {
                assert(k.spec_name() == iso@);
                let ghost c = choose|c: IsoKey| c.spec_name() == iso@;
                proof {
                    lemma_iso_name_unique(k, c);
                }
                Some(k.index())
            },
        },
    }
}

/// The CLDR row that a position name stands for.
fn row_of(iso: &String) -> (r: Option<usize>)
    ensures
        match r {
            Some(row) => named_row(iso@) == Some(row as nat),
            None => named_row(iso@) is None,
        },
{
    match RawIsoKey::parse(iso.as_str()) {
        None => None,
        Some(raw) => {
            let ghost c = choose|c: RawIsoKey| c.spec_name() == iso@;
            proof {
                lemma_raw_name_unique(raw, c);
            }
            Some(raw.row_number())
        },
    }
}

fn cell(e: &MapElement) -> (r: KeyValue)
    ensures
        r.view_chars() == cell_of(*e),
{
    KeyValue(Some(serialize(&Some(e.to.clone()))))
}

/// Builds the desktop layer of one key map: dense over the 49 internal
/// positions, `None` where no entry names a position. Entries naming no
/// position, or one the internal grid lacks, are skipped.
pub fn desktop_layer(keys: &Vec<MapElement>) -> (r: DesktopKeyMap)
    ensures
        r.wf(),
        r.view_cells() == desktop_layer_of(keys@),
{
    let mut cells: Vec<KeyValue> = Vec::new();
    let mut i: usize = 0;
    while i < ISO_KEY_COUNT
        invariant
            i <= ISO_KEY_COUNT,
            cells@.len() == i,
            forall|j: int| 0 <= j < i ==> (#[trigger] cells@[j]).view_chars() is None,
        decreases ISO_KEY_COUNT - i,
    {
        cells.push(KeyValue(None));
        i = i + 1;
    }
    assert(DesktopKeyMap(cells).view_cells() =~= desktop_layer_of(Seq::<MapElement>::empty()));
    let mut n: usize = 0;
    while n < keys.len()
        invariant
            n <= keys@.len(),
            cells@.len() == 49,
            DesktopKeyMap(cells).view_cells() == desktop_layer_of(keys@.take(n as int)),
        decreases keys@.len() - n,
    {
        let e = &keys[n];
        assert(keys@.take(n + 1).drop_last() =~= keys@.take(n as int));
        assert(keys@.take(n + 1).last() == keys@[n as int]);
        match position_of(&e.iso) {
            Some(p) => {
                let v = cell(e);
                cells.set(p, v);
                assert(DesktopKeyMap(cells).view_cells() =~= desktop_layer_of(keys@.take(n as int)).update(
                    p as int,
                    cell_of(*e),
                ));
            },
            None => {},
        }
        n = n + 1;
    }
    assert(keys@.take(keys@.len() as int) =~= keys@);
    DesktopKeyMap(cells)
}

/// Builds the mobile layer of one key map: one row for each CLDR row (E, D,
/// C, B, A) that holds a key, each with the outputs of its entries in source
/// order. Entries naming no CLDR position are skipped.
pub fn mobile_layer(keys: &Vec<MapElement>) -> (r: MobileKeyMap)
    ensures
        r.view_rows() == mobile_layer_of(keys@),
{
    let mut rows: Vec<Vec<KeyValue>> = Vec::new();
    let mut row: usize = 0;
    assert(MobileKeyMap(rows).view_rows() + mobile_rows_from(keys@, 0) =~= mobile_rows_from(keys@, 0));
    while row < 5
        invariant
            row <= 5,
            MobileKeyMap(rows).view_rows() + mobile_rows_from(keys@, row as nat) == mobile_layer_of(keys@),
        decreases 5 - row,
    {
        let mut cells: Vec<KeyValue> = Vec::new();
        let mut n: usize = 0;
        while n < keys.len()
            invariant
                n <= keys@.len(),
                cells@.map_values(|v: KeyValue| v.view_chars()) == row_cells(keys@.take(n as int), row as nat),
            decreases keys@.len() - n,
        {
            let e = &keys[n];
            assert(keys@.take(n + 1).drop_last() =~= keys@.take(n as int));
            assert(keys@.take(n + 1).last() == keys@[n as int]);
            let ghost before = cells@.map_values(|v: KeyValue| v.view_chars());
            match row_of(&e.iso) {
                Some(r) => {
                    if r == row {
                        let v = cell(e);
                        cells.push(v);
                        assert(cells@.map_values(|v: KeyValue| v.view_chars()) =~= before + seq![cell_of(*e)]);
                    } else {
                        assert(before + Seq::empty() =~= before);
                    }
                },
                None => {
                    assert(before + Seq::empty() =~= before);
                },
            }
            n = n + 1;
        }
        assert(keys@.take(keys@.len() as int) =~= keys@);
        let ghost done = MobileKeyMap(rows).view_rows();
        let ghost rest = mobile_rows_from(keys@, (row + 1) as nat);
        if cells.len() > 0 {
            rows.push(cells);
            assert(MobileKeyMap(rows).view_rows() =~= done.push(row_cells(keys@, row as nat)));
            assert(done.push(row_cells(keys@, row as nat)) + rest =~= done + (seq![row_cells(keys@, row as nat)]
                + rest));
        } else {
            assert(Seq::<Seq<Option<Seq<char>>>>::empty() + rest =~= rest);
        }
        row = row + 1;
    }
    assert(MobileKeyMap(rows).view_rows() + Seq::empty() =~= MobileKeyMap(rows).view_rows());
    MobileKeyMap(rows)
}


// ---------------------------------------------------------------------------
// Modes
// ---------------------------------------------------------------------------

/// The canonical mode name of a key map.
pub open spec fn key_map_mode(km: KeyMap) -> Seq<char> {
    mode_name_of(opt_chars(km.modifiers))
}

/// Mode names with the outputs of their desktop layers.
pub open spec fn desktop_view(es: Seq<(Seq<char>, DesktopKeyMap)>) -> Seq<(Seq<char>, Seq<Option<Seq<char>>>)> {
    es.map_values(|e: (Seq<char>, DesktopKeyMap)| (e.0, e.1.view_cells()))
}

/// Mode names with the outputs of their mobile layers.
pub open spec fn mobile_view(es: Seq<(Seq<char>, MobileKeyMap)>) -> Seq<(Seq<char>, Seq<Seq<Option<Seq<char>>>>)> {
    es.map_values(|e: (Seq<char>, MobileKeyMap)| (e.0, e.1.view_rows()))
}

/// The desktop modes that `kms` describe: each key map's layer under its mode
/// name, in order of first appearance; a later key map with the same mode
/// replaces the earlier layer.
pub open spec fn assemble_desktop(kms: Seq<KeyMap>) -> Seq<(Seq<char>, Seq<Option<Seq<char>>>)>
    decreases kms.len(),
{
    if kms.len() == 0 {
        Seq::empty()
    } else {
        entries_insert(
            assemble_desktop(kms.drop_last()),
            key_map_mode(kms.last()),
            desktop_layer_of(kms.last().keys@),
        )
    }
}

/// The mobile modes that `kms` describe, as `assemble_desktop` for desktop.
pub open spec fn assemble_mobile(kms: Seq<KeyMap>) -> Seq<(Seq<char>, Seq<Seq<Option<Seq<char>>>>)>
    decreases kms.len(),
{
    if kms.len() == 0 {
        Seq::empty()
    } else {
        entries_insert(
            assemble_mobile(kms.drop_last()),
            key_map_mode(kms.last()),
            mobile_layer_of(kms.last().keys@),
        )
    }
}

/// Viewing the entries commutes with inserting, when names are unique.
proof fn lemma_view_insert<V, W>(
    es: Seq<(Seq<char>, V)>,
    vs: Seq<(Seq<char>, W)>,
    k: Seq<char>,
    v: V,
    w: W,
)
    requires
        names_unique(es),
        es.len() == vs.len(),
        forall|i: int| 0 <= i < es.len() ==> (#[trigger] es[i]).0 == vs[i].0,
    ensures
        entries_insert(es, k, v).len() == entries_insert(vs, k, w).len(),
        forall|i: int|
            0 <= i < entries_insert(es, k, v).len() ==> (#[trigger] entries_insert(es, k, v)[i]).0
                == entries_insert(vs, k, w)[i].0,
        forall|i: int|
            0 <= i < entries_insert(es, k, v).len() && entries_insert(es, k, v)[i].0 != k
                ==> entries_insert(es, k, v)[i] == #[trigger] es[i] && entries_insert(vs, k, w)[i] == vs[i],
        forall|i: int|
            0 <= i < entries_insert(es, k, v).len() && (#[trigger] entries_insert(es, k, v)[i]).0 == k
                ==> entries_insert(es, k, v)[i].1 == v && entries_insert(vs, k, w)[i].1 == w,
{
    if exists|i: int| 0 <= i < es.len() && (#[trigger] es[i]).0 == k {
        let i = choose|i: int| 0 <= i < es.len() && (#[trigger] es[i]).0 == k;
        assert(vs[i].0 == k);
        let j = choose|j: int| 0 <= j < vs.len() && (#[trigger] vs[j]).0 == k;
        assert(es[j].0 == k);
        assert(i == j);
        let r = entries_insert(es, k, v);
        lemma_insert_present(es, k, v, i);
        assert(names_unique(vs)) by {
            assert forall|a: int, b: int| 0 <= a < vs.len() && 0 <= b < vs.len() && (#[trigger] vs[a]).0
                == (#[trigger] vs[b]).0 implies a == b by {
                assert(es[a].0 == vs[a].0 && es[b].0 == vs[b].0);
            }
        }
        lemma_insert_present(vs, k, w, i);
        assert forall|a: int| 0 <= a < r.len() && (#[trigger] r[a]).0 == k implies r[a].1 == v
            && entries_insert(vs, k, w)[a].1 == w by {
            if a != i {
                assert(r[a] == es[a]);
            }
        }
    } else {
        assert forall|j: int| 0 <= j < vs.len() implies (#[trigger] vs[j]).0 != k by {
            assert(es[j].0 == vs[j].0);
        }
        let r = entries_insert(es, k, v);
        assert(r == es.push((k, v)));
        assert(entries_insert(vs, k, w) == vs.push((k, w)));
        assert forall|a: int| 0 <= a < r.len() && (#[trigger] r[a]).0 == k implies r[a].1 == v
            && entries_insert(vs, k, w)[a].1 == w by {
            if a < es.len() {
                assert(r[a] == es[a]);
            }
        }
    }
}

proof fn lemma_assemble_desktop_unique(kms: Seq<KeyMap>)
    ensures
        names_unique(assemble_desktop(kms)),
    decreases kms.len(),
{
    if kms.len() > 0 {
        lemma_assemble_desktop_unique(kms.drop_last());
        lemma_entries_insert(assemble_desktop(kms.drop_last()), key_map_mode(kms.last()), desktop_layer_of(kms.last().keys@));
    }
}

proof fn lemma_assemble_mobile_unique(kms: Seq<KeyMap>)
    ensures
        names_unique(assemble_mobile(kms)),
    decreases kms.len(),
{
    if kms.len() > 0 {
        lemma_assemble_mobile_unique(kms.drop_last());
        lemma_entries_insert(assemble_mobile(kms.drop_last()), key_map_mode(kms.last()), mobile_layer_of(kms.last().keys@));
    }
}

/// When a key map repeats the mode of an earlier one, the modes hold exactly
/// one layer for that mode, the later key map's, and no more modes than
/// before.
pub proof fn lemma_later_key_map_wins(kms: Seq<KeyMap>, km: KeyMap)
    ensures
        names_unique(assemble_desktop(kms.push(km))),
        assemble_desktop(kms.push(km)).contains((key_map_mode(km), desktop_layer_of(km.keys@))),
        forall|i: int|
            0 <= i < assemble_desktop(kms.push(km)).len() && (#[trigger] assemble_desktop(kms.push(km))[i]).0
                == key_map_mode(km) ==> assemble_desktop(kms.push(km))[i].1 == desktop_layer_of(km.keys@),
        names_unique(assemble_mobile(kms.push(km))),
        assemble_mobile(kms.push(km)).contains((key_map_mode(km), mobile_layer_of(km.keys@))),
        forall|i: int|
            0 <= i < assemble_mobile(kms.push(km)).len() && (#[trigger] assemble_mobile(kms.push(km))[i]).0
                == key_map_mode(km) ==> assemble_mobile(kms.push(km))[i].1 == mobile_layer_of(km.keys@),
        (exists|j: int| 0 <= j < kms.len() && key_map_mode(#[trigger] kms[j]) == key_map_mode(km))
            ==> assemble_desktop(kms.push(km)).len() == assemble_desktop(kms).len()
            && assemble_mobile(kms.push(km)).len() == assemble_mobile(kms).len(),
{
    let all = kms.push(km);
    assert(all.drop_last() =~= kms);
    lemma_assemble_desktop_unique(kms);
    lemma_assemble_mobile_unique(kms);
    lemma_entries_insert(assemble_desktop(kms), key_map_mode(km), desktop_layer_of(km.keys@));
    lemma_entries_insert(assemble_mobile(kms), key_map_mode(km), mobile_layer_of(km.keys@));
    if exists|j: int| 0 <= j < kms.len() && key_map_mode(#[trigger] kms[j]) == key_map_mode(km) {
        let j = choose|j: int| 0 <= j < kms.len() && key_map_mode(#[trigger] kms[j]) == key_map_mode(km);
        lemma_mode_present(kms, j);
    }
}

/// Every key map's mode has an entry in the assembled modes.
proof fn lemma_mode_present(kms: Seq<KeyMap>, j: int)
    requires
        0 <= j < kms.len(),
    ensures
        exists|i: int| 0 <= i < assemble_desktop(kms).len() && (#[trigger] assemble_desktop(kms)[i]).0 == key_map_mode(kms[j]),
        exists|i: int| 0 <= i < assemble_mobile(kms).len() && (#[trigger] assemble_mobile(kms)[i]).0 == key_map_mode(kms[j]),
    decreases kms.len(),
{
    let prev = kms.drop_last();
    let k = key_map_mode(kms.last());
    let d = assemble_desktop(prev);
    let m = assemble_mobile(prev);
    lemma_assemble_desktop_unique(prev);
    lemma_assemble_mobile_unique(prev);
    lemma_entries_insert(d, k, desktop_layer_of(kms.last().keys@));
    lemma_entries_insert(m, k, mobile_layer_of(kms.last().keys@));
    if j == kms.len() - 1 {
        let a = choose|a: int| 0 <= a < assemble_desktop(kms).len() && assemble_desktop(kms)[a] == (k, desktop_layer_of(kms.last().keys@));
        assert(assemble_desktop(kms)[a].0 == k);
        let b = choose|b: int| 0 <= b < assemble_mobile(kms).len() && assemble_mobile(kms)[b] == (k, mobile_layer_of(kms.last().keys@));
        assert(assemble_mobile(kms)[b].0 == k);
    } else {
        assert(prev[j] == kms[j]);
        lemma_mode_present(prev, j);
        let a = choose|a: int| 0 <= a < d.len() && (#[trigger] d[a]).0 == key_map_mode(kms[j]);
        let b = choose|b: int| 0 <= b < m.len() && (#[trigger] m[b]).0 == key_map_mode(kms[j]);
        if exists|i: int| 0 <= i < d.len() && (#[trigger] d[i]).0 == k {
            let i = choose|i: int| 0 <= i < d.len() && (#[trigger] d[i]).0 == k;
            assert(assemble_desktop(kms)[a].0 == key_map_mode(kms[j]));
        } else {
            assert(assemble_desktop(kms)[a].0 == key_map_mode(kms[j]));
        }
        if exists|i: int| 0 <= i < m.len() && (#[trigger] m[i]).0 == k {
            let i = choose|i: int| 0 <= i < m.len() && (#[trigger] m[i]).0 == k;
            assert(assemble_mobile(kms)[b].0 == key_map_mode(kms[j]));
        } else {
            assert(assemble_mobile(kms)[b].0 == key_map_mode(kms[j]));
        }
    }
}

impl Keyboard {
    /// The locale names an Android keyboard.
    pub open spec fn spec_is_mobile(self) -> bool {
        contains_seq(self.locale@, "android"@)
    }

    /// Whether the keyboard is for a touch-screen target, judged by its locale
    /// naming Android.
    pub fn is_mobile(&self) -> (r: bool)
        ensures
            r == self.spec_is_mobile(),
    {
        str_contains(self.locale.as_str(), "android")
    }

    /// The target that the locale names: `mobile` for Android, `win`, `mac`
    /// (for `osx`), `chrome`, else `unknown`.
    pub fn mode_name(&self) -> (r: &'static str)
        ensures
            r@ == (if contains_seq(self.locale@, "android"@) {
                "mobile"@
            } else if contains_seq(self.locale@, "windows"@) {
                "win"@
            } else if contains_seq(self.locale@, "osx"@) {
                "mac"@
            } else if contains_seq(self.locale@, "chrome"@) {
                "chrome"@
            } else {
                "unknown"@
            }),
    {
        let locale = self.locale.as_str();
        if str_contains(locale, "android") {
            "mobile"
        } else if str_contains(locale, "windows") {
            "win"
        } else if str_contains(locale, "osx") {
            "mac"
        } else if str_contains(locale, "chrome") {
            "chrome"
        } else {
            "unknown"
        }
    }

    /// The kind of layers the locale calls for: mobile for Android, desktop
    /// for everything else.
    pub fn platform(&self) -> (r: Platform)
        ensures
            r == (if self.spec_is_mobile() {
                Platform::Mobile
            } else {
                Platform::Desktop
            }),
    {
        if self.is_mobile() {
            Platform::Mobile
        } else {
            Platform::Desktop
        }
    }

    /// Converts the keyboard into layers of the kind its locale calls for.
    pub fn to_mode(&self) -> (r: Mode)
        ensures
            match r {
                Mode::Mobile(m) => self.spec_is_mobile() && mobile_view(mobile_entries(m.0))
                    == assemble_mobile(self.key_maps@),
                Mode::Desktop(d) => !self.spec_is_mobile() && desktop_view(desktop_entries(d.0))
                    == assemble_desktop(self.key_maps@),
            },
    {
        let platform = self.platform();
        self.to_mode_for(platform)
    }

    /// Converts the keyboard into layers of the given kind.
    pub fn to_mode_for(&self, platform: Platform) -> (r: Mode)
        ensures
            match r {
                Mode::Mobile(m) => platform == Platform::Mobile && mobile_view(mobile_entries(m.0))
                    == assemble_mobile(self.key_maps@),
                Mode::Desktop(d) => platform == Platform::Desktop && desktop_view(desktop_entries(d.0))
                    == assemble_desktop(self.key_maps@),
            },
    {
        match platform {
            Platform::Mobile => Mode::Mobile(self.to_mobile_modes()),
            Platform::Desktop => Mode::Desktop(self.to_desktop_modes()),
        }
    }

    /// One mobile layer per modifier combination, in order of first
    /// appearance; a repeated combination takes the later key map's layer.
    pub fn to_mobile_modes(&self) -> (r: MobileModes)
        ensures
            mobile_view(mobile_entries(r.0)) == assemble_mobile(self.key_maps@),
            names_unique(mobile_entries(r.0)),
    {
        let mut out: IndexMap<String, MobileKeyMap> = new_mobile_map();
        let mut n: usize = 0;
        assert(mobile_view(mobile_entries(out)) =~= assemble_mobile(self.key_maps@.take(0)));
        while n < self.key_maps.len()
            invariant
                n <= self.key_maps@.len(),
                mobile_view(mobile_entries(out)) == assemble_mobile(self.key_maps@.take(n as int)),
                names_unique(mobile_entries(out)),
            decreases self.key_maps@.len() - n,
        {
            let km = &self.key_maps[n];
            let ghost kms = self.key_maps@.take(n + 1);
            assert(kms.drop_last() =~= self.key_maps@.take(n as int));
            assert(kms.last() == *km);
            let mode = parse_modifiers(km.modifiers.as_ref());
            let layer = mobile_layer(&km.keys);
            let ghost es = mobile_entries(out);
            let ghost lv = layer.view_rows();
            insert_mobile_map(&mut out, mode, layer);
            proof {
                lemma_entries_insert(es, mode@, layer);
                lemma_view_insert(es, mobile_view(es), mode@, layer, lv);
                let new_es = mobile_entries(out);
                assert(mobile_view(new_es) =~= entries_insert(mobile_view(es), mode@, lv));
            }
            n = n + 1;
        }
        assert(self.key_maps@.take(self.key_maps@.len() as int) =~= self.key_maps@);
        MobileModes(out)
    }

    /// One dense desktop layer per modifier combination, in order of first
    /// appearance; a repeated combination takes the later key map's layer.
    pub fn to_desktop_modes(&self) -> (r: DesktopModes)
        ensures
            desktop_view(desktop_entries(r.0)) == assemble_desktop(self.key_maps@),
            names_unique(desktop_entries(r.0)),
            forall|i: int| 0 <= i < desktop_entries(r.0).len() ==> (#[trigger] desktop_entries(r.0)[i]).1.wf(),
    {
        let mut out: IndexMap<String, DesktopKeyMap> = new_desktop_map();
        let mut n: usize = 0;
        assert(desktop_view(desktop_entries(out)) =~= assemble_desktop(self.key_maps@.take(0)));
        while n < self.key_maps.len()
            invariant
                n <= self.key_maps@.len(),
                desktop_view(desktop_entries(out)) == assemble_desktop(self.key_maps@.take(n as int)),
                names_unique(desktop_entries(out)),
                forall|i: int| 0 <= i < desktop_entries(out).len() ==> (#[trigger] desktop_entries(out)[i]).1.wf(),
            decreases self.key_maps@.len() - n,
        {
            let km = &self.key_maps[n];
            let ghost kms = self.key_maps@.take(n + 1);
            assert(kms.drop_last() =~= self.key_maps@.take(n as int));
            assert(kms.last() == *km);
            let mode = parse_modifiers(km.modifiers.as_ref());
            let layer = desktop_layer(&km.keys);
            let ghost es = desktop_entries(out);
            let ghost lv = layer.view_cells();
            let ghost lay = layer;
            insert_desktop_map(&mut out, mode, layer);
            proof {
                lemma_entries_insert(es, mode@, lay);
                lemma_view_insert(es, desktop_view(es), mode@, lay, lv);
                let new_es = desktop_entries(out);
                assert(desktop_view(new_es) =~= entries_insert(desktop_view(es), mode@, lv));
                assert forall|i: int| 0 <= i < new_es.len() implies (#[trigger] new_es[i]).1.wf() by {
                    if new_es[i].0 != mode@ {
                        assert(new_es[i] == es[i]);
                    }
                }
            }
            n = n + 1;
        }
        assert(self.key_maps@.take(self.key_maps@.len() as int) =~= self.key_maps@);
        DesktopModes(out)
    }
}


/// A desktop layer has a cell for each of the 49 internal positions, whatever
/// the key map holds.
pub proof fn lemma_desktop_layer_dense(keys: Seq<MapElement>)
    ensures
        desktop_layer_of(keys).len() == 49,
    decreases keys.len(),
{
    if keys.len() > 0 {
        lemma_desktop_layer_dense(keys.drop_last());
    }
}

/// An entry naming `D13` or a position of the row `A01`..`A05` leaves the
/// desktop layer as it was; an entry naming a position of the internal grid
/// sets that position, and only it.
pub proof fn lemma_cldr_positions(keys: Seq<MapElement>, e: MapElement, raw: RawIsoKey)
    requires
        raw.spec_name() == e.iso@,
    ensures
        (raw.row() == 4 || (raw.row() == 1 && raw.column() == 13)) ==> desktop_layer_of(keys.push(e))
            == desktop_layer_of(keys),
        forall|k: IsoKey|
            k.spec_name() == raw.spec_name() ==> desktop_layer_of(keys.push(e)) == desktop_layer_of(keys).update(
                k.ordinal() as int,
                cell_of(e),
            ),
{
    let all = keys.push(e);
    assert(all.drop_last() =~= keys);
    assert(all.last() == e);
    if raw.row() == 4 || (raw.row() == 1 && raw.column() == 13) {
        assert forall|k: IsoKey| k.spec_name() != e.iso@ by {
            if k.spec_name() == e.iso@ {
                lemma_position_name_injective(k.row(), k.column(), raw.row(), raw.column());
            }
        }
    }
    assert forall|k: IsoKey| k.spec_name() == raw.spec_name() implies desktop_layer_of(keys.push(e))
        == desktop_layer_of(keys).update(k.ordinal() as int, cell_of(e)) by {
        let c = choose|c: IsoKey| c.spec_name() == e.iso@;
        lemma_iso_name_unique(k, c);
    }
}

} // verus!
