//! Layers and the per-target collections of layers.
use vstd::prelude::*;
use indexmap::IndexMap;
use crate::iso_key::IsoKey;
use crate::keys::{decode_key, deserialize, KeyValue};
use crate::text::{chars_of, is_white_space, string_of, white_space};

verus! {

#[verifier::external_type_specification]
#[verifier::external_body]
#[verifier::reject_recursive_types(K)]
#[verifier::reject_recursive_types(V)]
#[verifier::reject_recursive_types(S)]
pub struct ExIndexMap<K, V, S>(IndexMap<K, V, S>);

/// One layer of a desktop keyboard: the output of each of the 49 positions of
/// the internal grid, by ordinal (see `IsoKey::ordinal`).
#[derive(Clone, Debug, PartialEq)]
pub struct DesktopKeyMap(pub Vec<KeyValue>);

impl DesktopKeyMap {
    /// Every position has a cell.
    pub open spec fn wf(self) -> bool {
        self.0@.len() == 49
    }

    /// The outputs, by position ordinal.
    pub open spec fn view_cells(self) -> Seq<Option<Seq<char>>> {
        self.0@.map_values(|v: KeyValue| v.view_chars())
    }

    /// The output of one position.
    pub fn get(&self, key: IsoKey) -> (r: &KeyValue)
        requires
            self.wf(),
        ensures
            r.view_chars() == self.view_cells()[key.ordinal() as int],
    {
        &self.0[key.index()]
    }
}

/// One layer of a touch-screen keyboard: rows of keys, top to bottom, each
/// left to right.
#[derive(Clone, Debug, PartialEq)]
pub struct MobileKeyMap(pub Vec<Vec<KeyValue>>);

impl MobileKeyMap {
    /// The outputs, row by row.
    pub open spec fn view_rows(self) -> Seq<Seq<Option<Seq<char>>>> {
        self.0@.map_values(|row: Vec<KeyValue>| row@.map_values(|v: KeyValue| v.view_chars()))
    }
}

/// The entries of a map from mode name to desktop layer, in the map's order.
pub uninterp spec fn desktop_entries(m: IndexMap<String, DesktopKeyMap>) -> Seq<(Seq<char>, DesktopKeyMap)>;

/// The entries of a map from mode name to mobile layer, in the map's order.
pub uninterp spec fn mobile_entries(m: IndexMap<String, MobileKeyMap>) -> Seq<(Seq<char>, MobileKeyMap)>;

/// `es` after inserting `v` under `k`: an existing entry for `k` keeps its place
/// and takes the new value; otherwise the entry goes last.
pub open spec fn entries_insert<V>(es: Seq<(Seq<char>, V)>, k: Seq<char>, v: V) -> Seq<(Seq<char>, V)> {
    if exists|i: int| 0 <= i < es.len() && (#[trigger] es[i]).0 == k {
        let i = choose|i: int| 0 <= i < es.len() && (#[trigger] es[i]).0 == k;
        es.update(i, (k, v))
    } else {
        es.push((k, v))
    }
}

/// No two entries share a name.
pub open spec fn names_unique<V>(es: Seq<(Seq<char>, V)>) -> bool {
    forall|i: int, j: int| 0 <= i < es.len() && 0 <= j < es.len() && (#[trigger] es[i]).0 == (#[trigger] es[j]).0 ==> i == j
}

/// Relies on `IndexMap::new`: the map starts empty.
#[verifier::external_body]
pub(crate) fn new_desktop_map() -> (r: IndexMap<String, DesktopKeyMap>)
    ensures
        desktop_entries(r) == Seq::<(Seq<char>, DesktopKeyMap)>::empty(),
{
    IndexMap::new()
}

/// Relies on `IndexMap::insert`: an equal key keeps its place and takes the
/// new value, a new key goes last.
#[verifier::external_body]
pub(crate) fn insert_desktop_map(m: &mut IndexMap<String, DesktopKeyMap>, k: String, v: DesktopKeyMap)
    ensures
        desktop_entries(*final(m)) == entries_insert(desktop_entries(*old(m)), k@, v),
{
    m.insert(k, v);
}

/// Relies on `IndexMap::new`: the map starts empty.
#[verifier::external_body]
pub(crate) fn new_mobile_map() -> (r: IndexMap<String, MobileKeyMap>)
    ensures
        mobile_entries(r) == Seq::<(Seq<char>, MobileKeyMap)>::empty(),
{
    IndexMap::new()
}

/// Relies on `IndexMap::insert`: an equal key keeps its place and takes the
/// new value, a new key goes last.
#[verifier::external_body]
pub(crate) fn insert_mobile_map(m: &mut IndexMap<String, MobileKeyMap>, k: String, v: MobileKeyMap)
    ensures
        mobile_entries(*final(m)) == entries_insert(mobile_entries(*old(m)), k@, v),
{
    m.insert(k, v);
}

/// Inserting keeps names unique; the inserted name then has exactly one entry,
/// holding the inserted value.
pub proof fn lemma_entries_insert<V>(es: Seq<(Seq<char>, V)>, k: Seq<char>, v: V)
    requires
        names_unique(es),
    ensures
        names_unique(entries_insert(es, k, v)),
        entries_insert(es, k, v).contains((k, v)),
        forall|i: int|
            0 <= i < entries_insert(es, k, v).len() && (#[trigger] entries_insert(es, k, v)[i]).0 == k
                ==> entries_insert(es, k, v)[i] == (k, v),
        (exists|i: int| 0 <= i < es.len() && (#[trigger] es[i]).0 == k) ==> entries_insert(es, k, v).len() == es.len(),
{
    let r = entries_insert(es, k, v);
    if exists|i: int| 0 <= i < es.len() && (#[trigger] es[i]).0 == k {
        let i = choose|i: int| 0 <= i < es.len() && (#[trigger] es[i]).0 == k;
        assert(r[i] == (k, v));
    } else {
        assert(r[es.len() as int] == (k, v));
        assert forall|a: int, b: int| 0 <= a < r.len() && 0 <= b < r.len() && (#[trigger] r[a]).0 == (#[trigger] r[b]).0 implies a == b by {
            if a < es.len() && b < es.len() {
                assert(es[a] == r[a] && es[b] == r[b]);
            } else if a < es.len() {
                assert(es[a] == r[a]);
            } else if b < es.len() {
                assert(es[b] == r[b]);
            }
        }
    }
}

/// Maps modifier combination to the layer of a mobile target, in the order in
/// which the combinations first appeared.
#[derive(Debug)]
pub struct MobileModes(pub IndexMap<String, MobileKeyMap>);

/// Maps modifier combination to the layer of a desktop target, in the order
/// in which the combinations first appeared.
#[derive(Debug)]
pub struct DesktopModes(pub IndexMap<String, DesktopKeyMap>);

/// The layers of one target, of either kind.
pub enum Mode {
    Mobile(MobileModes),
    Desktop(DesktopModes),
}


/// With unique names, inserting under a present name replaces that entry.
pub proof fn lemma_insert_present<V>(es: Seq<(Seq<char>, V)>, k: Seq<char>, v: V, i: int)
    requires
        names_unique(es),
        0 <= i < es.len(),
        es[i].0 == k,
    ensures
        entries_insert(es, k, v) == es.update(i, (k, v)),
{
    let c = choose|c: int| 0 <= c < es.len() && (#[trigger] es[c]).0 == k;
    assert(es[c].0 == es[i].0);
}


/// Target specific modes: for each supported target, its layers, where the
/// layout defines them.
#[derive(Debug, Default)]
pub struct Modes {
    /// Windows
    pub win: Option<DesktopModes>,
    /// macOS
    pub mac: Option<DesktopModes>,
    /// iOS, used for both iPhone and iPad keyboards
    pub ios: Option<MobileModes>,
    pub android: Option<MobileModes>,
    /// ChromeOS (used on Chrome Books)
    pub chrome: Option<DesktopModes>,
    /// Linux (X11)
    pub x11: Option<DesktopModes>,
    /// Desktop default mode
    pub desktop: Option<DesktopModes>,
    /// Mobile default mode
    pub mobile: Option<MobileModes>,
}

/// `seq![name]` where `present`, else nothing.
pub open spec fn listed_if(present: bool, name: Seq<char>) -> Seq<Seq<char>> {
    if present {
        seq![name]
    } else {
        Seq::empty()
    }
}

impl Modes {
    /// The names of the targets that have layers, in the fixed order win, mac,
    /// ios, android, chrome, x11, desktop, mobile.
    pub open spec fn spec_available_modes(self) -> Seq<Seq<char>> {
        listed_if(self.win is Some, "win"@) + listed_if(self.mac is Some, "mac"@) + listed_if(
            self.ios is Some,
            "ios"@,
        ) + listed_if(self.android is Some, "android"@) + listed_if(self.chrome is Some, "chrome"@)
            + listed_if(self.x11 is Some, "x11"@) + listed_if(self.desktop is Some, "desktop"@)
            + listed_if(self.mobile is Some, "mobile"@)
    }

    /// The names of the targets that have layers, in the fixed order win, mac,
    /// ios, android, chrome, x11, desktop, mobile.
    pub fn available_modes(&self) -> (r: Vec<String>)
        ensures
            r@.map_values(|s: String| s@) == self.spec_available_modes(),
    {
        let mut res: Vec<String> = Vec::new();
        push_if(&mut res, self.win.is_some(), "win");
        push_if(&mut res, self.mac.is_some(), "mac");
        push_if(&mut res, self.ios.is_some(), "ios");
        push_if(&mut res, self.android.is_some(), "android");
        push_if(&mut res, self.chrome.is_some(), "chrome");
        push_if(&mut res, self.x11.is_some(), "x11");
        push_if(&mut res, self.desktop.is_some(), "desktop");
        push_if(&mut res, self.mobile.is_some(), "mobile");
        assert(res@.map_values(|s: String| s@) =~= self.spec_available_modes());
        res
    }
}

fn push_if(v: &mut Vec<String>, present: bool, name: &str)
    ensures
        final(v)@.map_values(|s: String| s@) == old(v)@.map_values(|s: String| s@) + listed_if(present, name@),
{
    if present {
        v.push(name.to_owned());
        assert(v@.map_values(|s: String| s@) =~= old(v)@.map_values(|s: String| s@) + seq![name@]);
    } else {
        assert(old(v)@.map_values(|s: String| s@) + Seq::empty() =~= old(v)@.map_values(|s: String| s@));
    }
}


/// The lines of `s[i..]`, given that `cur` has been read of the current one; a
/// final empty line is not counted.
pub open spec fn lines_from(s: Seq<char>, i: int, cur: Seq<char>) -> Seq<Seq<char>>
    decreases s.len() - i,
{
    if i < 0 || i >= s.len() {
        if cur.len() > 0 {
            seq![cur]
        } else {
            Seq::empty()
        }
    } else if s[i] == '\n' {
        seq![cur] + lines_from(s, i + 1, Seq::empty())
    } else {
        lines_from(s, i + 1, cur.push(s[i]))
    }
}

/// The words of `s[i..]` (maximal runs of non-white-space), given that `cur`
/// has been read of the current one.
pub open spec fn words_from(s: Seq<char>, i: int, cur: Seq<char>) -> Seq<Seq<char>>
    decreases s.len() - i,
{
    if i < 0 || i >= s.len() {
        if cur.len() > 0 {
            seq![cur]
        } else {
            Seq::empty()
        }
    } else if white_space(s[i]) {
        (if cur.len() > 0 {
            seq![cur]
        } else {
            Seq::empty()
        }) + words_from(s, i + 1, Seq::empty())
    } else {
        words_from(s, i + 1, cur.push(s[i]))
    }
}

/// The layer that a text block writes: one row per line, one key per word,
/// each word read as a key's text.
pub open spec fn text_layer(s: Seq<char>) -> Seq<Seq<Option<Seq<char>>>> {
    lines_from(s, 0, Seq::empty()).map_values(
        |l: Seq<char>| words_from(l, 0, Seq::empty()).map_values(|w: Seq<char>| decode_key(w)),
    )
}

fn split_lines(cs: &Vec<char>) -> (r: Vec<Vec<char>>)
    ensures
        r@.map_values(|l: Vec<char>| l@) == lines_from(cs@, 0, Seq::empty()),
{
    let mut out: Vec<Vec<char>> = Vec::new();
    let mut cur: Vec<char> = Vec::new();
    let mut i: usize = 0;
    while i < cs.len()
        invariant
            i <= cs@.len(),
            out@.map_values(|l: Vec<char>| l@) + lines_from(cs@, i as int, cur@) == lines_from(cs@, 0, Seq::empty()),
        decreases cs@.len() - i,
    {
        let ghost before = out@.map_values(|l: Vec<char>| l@);
        let ghost rest = lines_from(cs@, i + 1, Seq::empty());
        if cs[i] == '\n' {
            let ghost line = cur@;
            out.push(cur);
            cur = Vec::new();
            assert(out@.map_values(|l: Vec<char>| l@) =~= before.push(line));
            assert(before.push(line) + rest =~= before + (seq![line] + rest));
            assert(cur@ =~= Seq::<char>::empty());
        } else {
            cur.push(cs[i]);
        }
        i = i + 1;
    }
    let ghost before = out@.map_values(|l: Vec<char>| l@);
    if cur.len() > 0 {
        let ghost line = cur@;
        out.push(cur);
        assert(out@.map_values(|l: Vec<char>| l@) =~= before + seq![line]);
    } else {
        assert(before + Seq::empty() =~= before);
    }
    out
}

fn split_words(cs: &Vec<char>) -> (r: Vec<Vec<char>>)
    ensures
        r@.map_values(|l: Vec<char>| l@) == words_from(cs@, 0, Seq::empty()),
{
    let mut out: Vec<Vec<char>> = Vec::new();
    let mut cur: Vec<char> = Vec::new();
    let mut i: usize = 0;
    while i < cs.len()
        invariant
            i <= cs@.len(),
            out@.map_values(|l: Vec<char>| l@) + words_from(cs@, i as int, cur@) == words_from(cs@, 0, Seq::empty()),
        decreases cs@.len() - i,
    {
        let ghost before = out@.map_values(|l: Vec<char>| l@);
        let ghost rest = words_from(cs@, i + 1, Seq::empty());
        if is_white_space(cs[i]) {
            if cur.len() > 0 {
                let ghost word = cur@;
                out.push(cur);
                assert(out@.map_values(|l: Vec<char>| l@) =~= before.push(word));
                assert(before.push(word) + rest =~= before + (seq![word] + rest));
            } else {
                assert(Seq::<Seq<char>>::empty() + rest =~= rest);
            }
            cur = Vec::new();
            assert(cur@ =~= Seq::<char>::empty());
        } else {
            cur.push(cs[i]);
        }
        i = i + 1;
    }
    let ghost before = out@.map_values(|l: Vec<char>| l@);
    if cur.len() > 0 {
        let ghost word = cur@;
        out.push(cur);
        assert(out@.map_values(|l: Vec<char>| l@) =~= before + seq![word]);
    } else {
        assert(before + Seq::empty() =~= before);
    }
    out
}

impl MobileKeyMap {
    /// Reads a layer written as a text block: one row per line, keys separated
    /// by white space, each key in the text form of `deserialize`. Rows keep
    /// the order and length they have in the text.
    pub fn from_text(text: &str) -> (r: MobileKeyMap)
        ensures
            r.view_rows() == text_layer(text@),
    {
        let cs = chars_of(text);
        let lines = split_lines(&cs);
        let ghost ls = lines@.map_values(|l: Vec<char>| l@);
        let mut rows: Vec<Vec<KeyValue>> = Vec::new();
        let mut i: usize = 0;
        while i < lines.len()
            invariant
                i <= lines@.len(),
                ls == lines@.map_values(|l: Vec<char>| l@),
                ls == lines_from(text@, 0, Seq::empty()),
                MobileKeyMap(rows).view_rows() == text_layer(text@).take(i as int),
            decreases lines@.len() - i,
        {
            let words = split_words(&lines[i]);
            let ghost ws = words@.map_values(|l: Vec<char>| l@);
            let mut row: Vec<KeyValue> = Vec::new();
            let mut j: usize = 0;
            while j < words.len()
                invariant
                    j <= words@.len(),
                    ws == words@.map_values(|l: Vec<char>| l@),
                    row@.map_values(|v: KeyValue| v.view_chars()) == ws.take(j as int).map_values(
                        |w: Seq<char>| decode_key(w),
                    ),
                decreases words@.len() - j,
            {
                let w = &words[j];
                let written = string_of(w, 0, w.len());
                assert(w@.subrange(0, w@.len() as int) == w@);
                let v = deserialize(written.as_str());
                assert(ws[j as int] == w@);
                assert(KeyValue(v).view_chars() == decode_key(ws[j as int]));
                let ghost before = row@.map_values(|v: KeyValue| v.view_chars());
                row.push(KeyValue(v));
                assert(ws.take(j + 1) =~= ws.take(j as int).push(ws[j as int]));
                assert(row@.map_values(|v: KeyValue| v.view_chars()) =~= before.push(decode_key(ws[j as int])));
                assert(ws.take(j + 1).map_values(|w: Seq<char>| decode_key(w)) =~= ws.take(j as int).map_values(
                    |w: Seq<char>| decode_key(w),
                ).push(decode_key(ws[j as int])));
                j = j + 1;
            }
            assert(ws.take(ws.len() as int) =~= ws);
            assert(ls[i as int] == lines@[i as int]@);
            assert(text_layer(text@)[i as int] == ws.map_values(|w: Seq<char>| decode_key(w)));
            let ghost done = MobileKeyMap(rows).view_rows();
            let ghost row_view = row@.map_values(|v: KeyValue| v.view_chars());
            rows.push(row);
            assert(MobileKeyMap(rows).view_rows() =~= done.push(row_view));
            assert(text_layer(text@).take(i + 1) =~= text_layer(text@).take(i as int).push(text_layer(text@)[i as int]));
            i = i + 1;
        }
        assert(text_layer(text@).take(lines@.len() as int) =~= text_layer(text@));
        MobileKeyMap(rows)
    }
}

} // verus!
