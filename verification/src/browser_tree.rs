//! The entity browser's tree: the palette of spawnable things, projected
//! into the flat list of rows the panel shows. A path's segments are its
//! directories; a directory row shows its children only while expanded
//! (while a filter is typed, every directory on a match's path counts as
//! expanded). Each directory appears once, at its first occurrence.

use vstd::prelude::*;

use crate::timeline::copy_vec;
use crate::versions::string_from_chars;

verus! {

/// What activating a palette entry does.
#[derive(Clone, Copy, PartialEq, Eq, Debug, Structural)]
pub enum AddKind {
    /// A new minion layer.
    MinionToken,
    /// A new empty tile layer on top of the stack.
    TileLayer,
}

/// One spawnable thing: its path (as segments) and its label.
pub struct PaletteEntry {
    pub segments: Vec<Vec<char>>,
    pub label: Vec<char>,
    pub add: AddKind,
}

pub struct EntryModel {
    pub segments: Seq<Seq<char>>,
    pub label: Seq<char>,
    pub add: AddKind,
}

impl View for PaletteEntry {
    type V = EntryModel;

    open spec fn view(&self) -> EntryModel {
        EntryModel {
            segments: self.segments@.map_values(|s: Vec<char>| s@),
            label: self.label@,
            add: self.add,
        }
    }
}

/// Whether a row is a directory (and shown expanded) or a palette entry.
#[derive(Clone, Copy, PartialEq, Eq, Debug, Structural)]
pub enum RowKind {
    Dir { expanded: bool },
    Entry { palette: usize },
}

/// One row of the projection.
pub struct BrowserRow {
    pub path: Vec<char>,
    pub label: Vec<char>,
    pub depth: usize,
    pub kind: RowKind,
}

pub struct RowModel {
    pub path: Seq<char>,
    pub label: Seq<char>,
    pub depth: int,
    pub kind: RowKind,
}

impl View for BrowserRow {
    type V = RowModel;

    open spec fn view(&self) -> RowModel {
        RowModel { path: self.path@, label: self.label@, depth: self.depth as int, kind: self.kind }
    }
}

pub open spec fn rows_view(rows: Seq<BrowserRow>) -> Seq<RowModel> {
    rows.map_values(|r: BrowserRow| r@)
}

/// The first `n` segments joined with `/`.
pub open spec fn join(segs: Seq<Seq<char>>, n: int) -> Seq<char>
    decreases n,
{
    if n <= 0 {
        Seq::empty()
    } else if n == 1 {
        segs[0]
    } else {
        join(segs, n - 1) + seq!['/'] + segs[n - 1]
    }
}

/// ASCII lower case (other characters unchanged).
pub open spec fn lower_char(c: char) -> char {
    if 'A' <= c <= 'Z' {
        ((c as u32) + 32) as char
    } else {
        c
    }
}

pub open spec fn lower(s: Seq<char>) -> Seq<char> {
    s.map_values(|c: char| lower_char(c))
}

/// `needle` occurs in `hay`.
pub open spec fn contains_sub(hay: Seq<char>, needle: Seq<char>) -> bool {
    exists|i: int| 0 <= i && i + needle.len() <= hay.len() && #[trigger] hay.subrange(i, i + needle.len()) == needle
}

/// An entry passes the filter: its path contains the filter, case aside.
pub open spec fn passes(e: EntryModel, filter: Option<Seq<char>>) -> bool {
    match filter {
        Some(f) => contains_sub(lower(join(e.segments, e.segments.len() as int)), lower(f)),
        None => true,
    }
}

/// The rows entry `index` adds from segment `d` on, with `seen` the
/// directories shown so far; also the directories shown afterwards.
pub open spec fn entry_rows(
    e: EntryModel,
    index: int,
    d: int,
    visible: bool,
    seen: Set<Seq<char>>,
    expanded: Set<Seq<char>>,
    filtering: bool,
) -> (Seq<RowModel>, Set<Seq<char>>)
    decreases e.segments.len() - d,
{
    if d < 0 || d >= e.segments.len() {
        (Seq::empty(), seen)
    } else if d == e.segments.len() - 1 {
        (
            if visible {
                seq![
                    RowModel {
                        path: join(e.segments, d + 1),
                        label: e.label,
                        depth: d,
                        kind: RowKind::Entry { palette: index as usize },
                    },
                ]
            } else {
                Seq::empty()
            },
            seen,
        )
    } else {
        let prefix = join(e.segments, d + 1);
        let exp = filtering || expanded.contains(prefix);
        let row: Seq<RowModel> = if visible && !seen.contains(prefix) {
            seq![
                RowModel {
                    path: prefix,
                    label: e.segments[d],
                    depth: d,
                    kind: RowKind::Dir { expanded: exp },
                },
            ]
        } else {
            Seq::empty()
        };
        let seen2 = if visible {
            seen.insert(prefix)
        } else {
            seen
        };
        let rest = entry_rows(e, index, d + 1, visible && exp, seen2, expanded, filtering);
        (row + rest.0, rest.1)
    }
}

/// The rows of the first `n` palette entries (and the directories shown).
pub open spec fn projection(
    entries: Seq<EntryModel>,
    n: int,
    expanded: Set<Seq<char>>,
    filter: Option<Seq<char>>,
) -> (Seq<RowModel>, Set<Seq<char>>)
    decreases n,
{
    if n <= 0 {
        (Seq::empty(), Set::empty())
    } else {
        let before = projection(entries, n - 1, expanded, filter);
        let e = entries[n - 1];
        if passes(e, filter) {
            let added = entry_rows(e, n - 1, 0, true, before.1, expanded, filter is Some);
            (before.0 + added.0, added.1)
        } else {
            before
        }
    }
}

/// Two character sequences are equal.
pub fn same_chars(a: &Vec<char>, b: &Vec<char>) -> (r: bool)
    ensures
        r == (a@ == b@),
{
    if a.len() != b.len() {
        return false;
    }
    let mut i: usize = 0;
    while i < a.len()
        invariant
            i <= a@.len(),
            a@.len() == b@.len(),
            forall|x: int| 0 <= x < i ==> a@[x] == b@[x],
        decreases a@.len() - i,
    {
        if a[i] != b[i] {
            return false;
        }
        i = i + 1;
    }
    proof {
        assert(a@ =~= b@);
    }
    true
}

/// The set a list of paths stands for.
pub open spec fn path_set(v: Seq<Vec<char>>) -> Set<Seq<char>> {
    Set::new(|p: Seq<char>| exists|i: int| 0 <= i < v.len() && #[trigger] v[i]@ == p)
}

/// Whether `p` is among `v`.
pub fn has_path(v: &Vec<Vec<char>>, p: &Vec<char>) -> (r: bool)
    ensures
        r == path_set(v@).contains(p@),
{
    let mut i: usize = 0;
    while i < v.len()
        invariant
            i <= v@.len(),
            forall|x: int| 0 <= x < i ==> v@[x]@ != p@,
        decreases v@.len() - i,
    {
        if same_chars(&v[i], p) {
            return true;
        }
        i = i + 1;
    }
    false
}

/// The first `n` segments joined with `/`.
fn join_exec(segs: &Vec<Vec<char>>, n: usize) -> (r: Vec<char>)
    requires
        n <= segs@.len(),
    ensures
        r@ == join(segs@.map_values(|s: Vec<char>| s@), n as int),
{
    let ghost m = segs@.map_values(|s: Vec<char>| s@);
    let mut r: Vec<char> = Vec::new();
    let mut k: usize = 0;
    while k < n
        invariant
            k <= n <= segs@.len(),
            m == segs@.map_values(|s: Vec<char>| s@),
            r@ == join(m, k as int),
        decreases n - k,
    {
        if k > 0 {
            r.push('/');
        }
        let ghost before = r@;
        let seg = &segs[k];
        let mut j: usize = 0;
        while j < seg.len()
            invariant
                j <= seg@.len(),
                r@ == before + seg@.subrange(0, j as int),
            decreases seg@.len() - j,
        {
            r.push(seg[j]);
            proof {
                assert(seg@.subrange(0, j + 1) =~= seg@.subrange(0, j as int).push(seg@[j as int]));
            }
            j = j + 1;
        }
        proof {
            assert(seg@.subrange(0, seg@.len() as int) =~= seg@);
            assert(m[k as int] == seg@);
            if k == 0 {
                assert(r@ =~= join(m, 1));
            } else {
                assert(r@ =~= join(m, k + 1));
            }
        }
        k = k + 1;
    }
    r
}

/// ASCII lower case of a character sequence.
fn lower_exec(s: &Vec<char>) -> (r: Vec<char>)
    ensures
        r@ == lower(s@),
{
    let mut r: Vec<char> = Vec::new();
    let mut i: usize = 0;
    while i < s.len()
        invariant
            i <= s@.len(),
            r@ == lower(s@.subrange(0, i as int)),
        decreases s@.len() - i,
    {
        let c = s[i];
        let l = if 'A' <= c && c <= 'Z' {
            char_from_ascii_upper(c)
        } else {
            c
        };
        r.push(l);
        proof {
            assert(lower(s@.subrange(0, i + 1)) =~= lower(s@.subrange(0, i as int)).push(lower_char(c)));
        }
        i = i + 1;
    }
    proof {
        assert(s@.subrange(0, s@.len() as int) =~= s@);
    }
    r
}

/// The lower-case letter of an upper-case ASCII letter.
fn char_from_ascii_upper(c: char) -> (l: char)
    requires
        'A' <= c <= 'Z',
    ensures
        l == lower_char(c),
{
    match c {
        'A' => 'a',
        'B' => 'b',
        'C' => 'c',
        'D' => 'd',
        'E' => 'e',
        'F' => 'f',
        'G' => 'g',
        'H' => 'h',
        'I' => 'i',
        'J' => 'j',
        'K' => 'k',
        'L' => 'l',
        'M' => 'm',
        'N' => 'n',
        'O' => 'o',
        'P' => 'p',
        'Q' => 'q',
        'R' => 'r',
        'S' => 's',
        'T' => 't',
        'U' => 'u',
        'V' => 'v',
        'W' => 'w',
        'X' => 'x',
        'Y' => 'y',
        _ => 'z',
    }
}

/// Whether `needle` occurs in `hay`.
fn contains_exec(hay: &Vec<char>, needle: &Vec<char>) -> (r: bool)
    ensures
        r == contains_sub(hay@, needle@),
{
    let n = needle.len();
    if n > hay.len() {
        proof {
            assert forall|i: int| 0 <= i && i + n <= hay@.len() implies #[trigger] hay@.subrange(
                i,
                i + n,
            ) != needle@ by {}
        }
        return false;
    }
    let mut i: usize = 0;
    while i <= hay.len() - n
        invariant
            hay@.len() == hay.len(),
            n == needle@.len(),
            n <= hay@.len(),
            i <= hay@.len() - n + 1,
            forall|x: int| 0 <= x < i ==> #[trigger] hay@.subrange(x, x + n) != needle@,
        decreases hay@.len() - i,
    {
        let mut j: usize = 0;
        let mut ok = true;
        while j < n && ok
            invariant
                j <= n,
                i + n <= hay@.len(),
                hay@.len() == hay.len(),
                n == needle@.len(),
                ok == forall|y: int| 0 <= y < j ==> hay@[i + y] == needle@[y],
            decreases n - j,
        {
            if hay[i + j] != needle[j] {
                ok = false;
            }
            j = j + 1;
        }
        if ok {
            proof {
                assert(hay@.subrange(i as int, i + n) =~= needle@);
            }
            return true;
        }
        proof {
            let y = choose|y: int| 0 <= y < j && hay@[i + y] != needle@[y];
            assert(hay@.subrange(i as int, i + n)[y] != needle@[y]);
        }
        i = i + 1;
    }
    proof {
        assert forall|x: int| 0 <= x && x + n <= hay@.len() implies #[trigger] hay@.subrange(x, x + n)
            != needle@ by {
            assert(x < i);
        }
    }
    false
}

/// The filter's view.
pub open spec fn filter_view(f: Option<Vec<char>>) -> Option<Seq<char>> {
    match f {
        Some(v) => Some(v@),
        None => None,
    }
}

pub open spec fn entries_view(v: Seq<PaletteEntry>) -> Seq<EntryModel> {
    v.map_values(|e: PaletteEntry| e@)
}

/// Appends the rows entry `index` adds to `rows`, recording the directories
/// shown in `seen`.
fn add_entry_rows(
    e: &PaletteEntry,
    index: usize,
    rows: &mut Vec<BrowserRow>,
    seen: &mut Vec<Vec<char>>,
    expanded: &Vec<Vec<char>>,
    filtering: bool,
)
    ensures
        ({
            let r = entry_rows(e@, index as int, 0, true, path_set(old(seen)@), path_set(expanded@), filtering);
            &&& rows_view(final(rows)@) == rows_view(old(rows)@) + r.0
            &&& path_set(final(seen)@) == r.1
        }),
{
    let ghost em = e@;
    let ghost ex = path_set(expanded@);
    let ghost target = entry_rows(em, index as int, 0, true, path_set(old(seen)@), ex, filtering);
    let ghost rows0 = rows_view(rows@);
    let n = e.segments.len();
    let mut d: usize = 0;
    let mut visible = true;
    while d < n
        invariant
            d <= n,
            n == e.segments@.len(),
            em == e@,
            ex == path_set(expanded@),
            rows_view(rows@) + entry_rows(em, index as int, d as int, visible, path_set(seen@), ex, filtering).0
                == rows0 + target.0,
            entry_rows(em, index as int, d as int, visible, path_set(seen@), ex, filtering).1 == target.1,
        decreases n - d,
    {
        let ghost before_rows = rows_view(rows@);
        let ghost seen0 = seen@;
        let ghost before_seen = path_set(seen@);
        let prefix = join_exec(&e.segments, d + 1);
        proof {
            assert(em.segments.len() == n);
        }
        if d == n - 1 {
            if visible {
                rows.push(BrowserRow {
                    path: prefix,
                    label: copy_vec(&e.label),
                    depth: d,
                    kind: RowKind::Entry { palette: index },
                });
                proof {
                    assert(rows_view(rows@) =~= before_rows.push(rows@.last()@));
                }
            }
            proof {
                let rest = entry_rows(em, index as int, d + 1, visible, path_set(seen@), ex, filtering);
                assert(rest.0 =~= Seq::<RowModel>::empty());
                if visible {
                    assert(rows_view(rows@) + rest.0 =~= before_rows + entry_rows(
                        em,
                        index as int,
                        d as int,
                        visible,
                        before_seen,
                        ex,
                        filtering,
                    ).0);
                } else {
                    assert(rows_view(rows@) + rest.0 =~= before_rows + entry_rows(
                        em,
                        index as int,
                        d as int,
                        visible,
                        before_seen,
                        ex,
                        filtering,
                    ).0);
                }
            }
            d = d + 1;
            visible = visible;
        } else {
            let exp = filtering || has_path(expanded, &prefix);
            let shown = has_path(seen, &prefix);
            let ghost label = e.segments@[d as int]@;
            if visible && !shown {
                rows.push(BrowserRow {
                    path: copy_vec(&prefix),
                    label: copy_vec(&e.segments[d]),
                    depth: d,
                    kind: RowKind::Dir { expanded: exp },
                });
                proof {
                    assert(rows_view(rows@) =~= before_rows.push(rows@.last()@));
                    assert(em.segments[d as int] == e.segments@[d as int]@);
                }
            }
            if visible && !shown {
                seen.push(prefix);
            }
            proof {
                let p = join(em.segments, d + 1);
                assert(path_set(seen@) =~= if visible {
                    before_seen.insert(p)
                } else {
                    before_seen
                }) by {
                    if visible && !shown {
                        assert forall|q: Seq<char>| path_set(seen@).contains(q) == before_seen.insert(p).contains(q) by {
                            if q == p {
                                assert(seen@[seen@.len() - 1]@ == q);
                            }
                            if path_set(seen@).contains(q) && q != p {
                                let w = choose|w: int| 0 <= w < seen@.len() && #[trigger] seen@[w]@ == q;
                                assert(w < seen@.len() - 1);
                            }
                            if before_seen.contains(q) {
                                let w = choose|w: int| 0 <= w < seen0.len() && #[trigger] seen0[w]@ == q;
                                assert(seen@[w] == seen0[w]);
                            }
                        }
                    }
                }
                let row: Seq<RowModel> = if visible && !before_seen.contains(p) {
                    seq![
                        RowModel {
                            path: p,
                            label: em.segments[d as int],
                            depth: d as int,
                            kind: RowKind::Dir { expanded: exp },
                        },
                    ]
                } else {
                    Seq::empty()
                };
                assert(rows_view(rows@) =~= before_rows + row);
                let rest = entry_rows(em, index as int, d + 1, visible && exp, path_set(seen@), ex, filtering);
                assert(entry_rows(em, index as int, d as int, visible, before_seen, ex, filtering) == (
                row + rest.0,
                rest.1,
                ));
                assert(rows_view(rows@) + rest.0 =~= before_rows + (row + rest.0));
            }
            visible = visible && exp;
            d = d + 1;
        }
    }
    proof {
        let rest = entry_rows(em, index as int, d as int, visible, path_set(seen@), ex, filtering);
        assert(rest.0 =~= Seq::<RowModel>::empty());
        assert(rows_view(rows@) + rest.0 =~= rows_view(rows@));
    }
}

/// The flat list of rows the panel shows for `entries`, given the expanded
/// directories and the typed filter.
pub fn project(entries: &Vec<PaletteEntry>, expanded: &Vec<Vec<char>>, filter: &Option<Vec<char>>) -> (rows:
    Vec<BrowserRow>)
    ensures
        rows_view(rows@) == projection(
            entries_view(entries@),
            entries@.len() as int,
            path_set(expanded@),
            filter_view(*filter),
        ).0,
{
    let ghost es = entries_view(entries@);
    let ghost ex = path_set(expanded@);
    let ghost fv = filter_view(*filter);
    let lowered: Option<Vec<char>> = match filter {
        Some(f) => Some(lower_exec(f)),
        None => None,
    };
    let filtering = filter.is_some();
    let mut rows: Vec<BrowserRow> = Vec::new();
    let mut seen: Vec<Vec<char>> = Vec::new();
    proof {
        assert(path_set(seen@) =~= Set::<Seq<char>>::empty());
        assert(rows_view(rows@) =~= Seq::<RowModel>::empty());
    }
    let mut i: usize = 0;
    while i < entries.len()
        invariant
            i <= entries@.len(),
            es == entries_view(entries@),
            ex == path_set(expanded@),
            fv == filter_view(*filter),
            filtering == (fv is Some),
            match (lowered, fv) {
                (Some(l), Some(f)) => l@ == lower(f),
                (None, None) => true,
                _ => false,
            },
            rows_view(rows@) == projection(es, i as int, ex, fv).0,
            path_set(seen@) == projection(es, i as int, ex, fv).1,
        decreases entries@.len() - i,
    {
        let e = &entries[i];
        proof {
            assert(es[i as int] == e@);
        }
        let pass = match &lowered {
            Some(l) => {
                let whole = join_exec(&e.segments, e.segments.len());
                let lw = lower_exec(&whole);
                contains_exec(&lw, l)
            },
            None => true,
        };
        proof {
            assert(pass == passes(e@, fv));
        }
        if pass {
            add_entry_rows(e, i, &mut rows, &mut seen, expanded, filtering);
        }
        i = i + 1;
    }
    rows
}

// --- The palette and the browser's state -------------------------------------------------

/// The spawnable things, in toolbar order: their paths are the tree.
pub open spec fn palette_spec() -> Seq<EntryModel> {
    seq![
        EntryModel {
            segments: seq!["enemies"@, "minions"@, "token"@],
            label: "Token Minion"@,
            add: AddKind::MinionToken,
        },
        EntryModel {
            segments: seq!["tiles"@, "choreography-layer"@],
            label: "Tile Layer"@,
            add: AddKind::TileLayer,
        },
    ]
}

/// The palette.
pub fn palette() -> (p: Vec<PaletteEntry>)
    ensures
        entries_view(p@) == palette_spec(),
{
    let mut token: Vec<Vec<char>> = Vec::new();
    token.push(crate::versions::chars_of("enemies"));
    token.push(crate::versions::chars_of("minions"));
    token.push(crate::versions::chars_of("token"));
    let mut tiles: Vec<Vec<char>> = Vec::new();
    tiles.push(crate::versions::chars_of("tiles"));
    tiles.push(crate::versions::chars_of("choreography-layer"));
    let mut p: Vec<PaletteEntry> = Vec::new();
    p.push(
        PaletteEntry {
            segments: token,
            label: crate::versions::chars_of("Token Minion"),
            add: AddKind::MinionToken,
        },
    );
    p.push(
        PaletteEntry {
            segments: tiles,
            label: crate::versions::chars_of("Tile Layer"),
            add: AddKind::TileLayer,
        },
    );
    proof {
        assert(p@[0]@.segments =~= palette_spec()[0].segments);
        assert(p@[1]@.segments =~= palette_spec()[1].segments);
        assert(entries_view(p@) =~= palette_spec());
    }
    p
}

/// The browser's working state (the reject shake's timer aside).
pub struct BrowserState {
    pub rows: Vec<BrowserRow>,
    pub focused: usize,
    pub expanded: Vec<Vec<char>>,
    pub saved_expanded: Option<Vec<Vec<char>>>,
    pub filter: Option<Vec<char>>,
    pub scroll_row: usize,
    /// A palette index being dragged toward the board.
    pub dragging: Option<usize>,
}

pub struct BrowserModel {
    pub rows: Seq<RowModel>,
    pub focused: int,
    pub expanded: Set<Seq<char>>,
    pub saved: Option<Set<Seq<char>>>,
    pub filter: Option<Seq<char>>,
    pub scroll_row: int,
    pub dragging: Option<usize>,
}

impl View for BrowserState {
    type V = BrowserModel;

    open spec fn view(&self) -> BrowserModel {
        BrowserModel {
            rows: rows_view(self.rows@),
            focused: self.focused as int,
            expanded: path_set(self.expanded@),
            saved: match self.saved_expanded {
                Some(v) => Some(path_set(v@)),
                None => None,
            },
            filter: filter_view(self.filter),
            scroll_row: self.scroll_row as int,
            dragging: self.dragging,
        }
    }
}

/// The top-level directories: open when the browser starts.
pub open spec fn top_level() -> Set<Seq<char>> {
    set!["enemies"@, "tiles"@]
}

/// The last row index (0 with no rows).
pub open spec fn last_index(len: int) -> int {
    if len == 0 {
        0
    } else {
        len - 1
    }
}

/// The model after the rows are projected anew (the focus clamped to them).
pub open spec fn rebuilt(m: BrowserModel) -> BrowserModel {
    let rows = projection(palette_spec(), 2, m.expanded, m.filter).0;
    BrowserModel {
        rows,
        focused: if m.focused <= last_index(rows.len() as int) {
            m.focused
        } else {
            last_index(rows.len() as int)
        },
        ..m
    }
}

impl BrowserState {
    /// Top-level groups start expanded; nothing is filtered or projected yet.
    pub fn new() -> (s: BrowserState)
        ensures
            s@.rows.len() == 0,
            s@.focused == 0,
            s@.expanded == top_level(),
            s@.saved is None,
            s@.filter is None,
            s@.scroll_row == 0,
            s@.dragging is None,
    {
        let mut expanded: Vec<Vec<char>> = Vec::new();
        expanded.push(crate::versions::chars_of("enemies"));
        expanded.push(crate::versions::chars_of("tiles"));
        let s = BrowserState {
            rows: Vec::new(),
            focused: 0,
            expanded,
            saved_expanded: None,
            filter: None,
            scroll_row: 0,
            dragging: None,
        };
        proof {
            assert(path_set(s.expanded@) =~= top_level()) by {
                assert(s.expanded@[0]@ == "enemies"@);
                assert(s.expanded@[1]@ == "tiles"@);
            }
            assert(rows_view(s.rows@) =~= Seq::<RowModel>::empty());
        }
        s
    }

    /// Projects the rows anew from the palette, the expanded directories and
    /// the filter; the focus stays on the board of rows.
    pub fn rebuild_projection(&mut self)
        ensures
            final(self)@ == rebuilt(old(self)@),
    {
        let p = palette();
        proof {
            assert(entries_view(p@).len() == p@.len());
            assert(palette_spec().len() == 2);
        }
        let rows = project(&p, &self.expanded, &self.filter);
        self.rows = rows;
        let last: usize = if self.rows.len() == 0 {
            0
        } else {
            self.rows.len() - 1
        };
        if self.focused > last {
            self.focused = last;
        }
    }
}

// --- Keyboard -------------------------------------------------------------------------

/// What the player pressed this frame while the browser has focus.
pub struct BrowserKeys {
    pub escape: bool,
    pub down: bool,
    pub up: bool,
    pub home: bool,
    pub end: bool,
    pub right: bool,
    pub left: bool,
    pub enter: bool,
    /// Letters, digits, `-` and `/` typed this frame, in order.
    pub typed: Vec<char>,
    pub backspace: bool,
}

/// What the caller does after the keys are handled.
#[derive(Clone, Copy, PartialEq, Eq, Debug, Structural)]
pub enum BrowserAction {
    Stay,
    /// Close the panel.
    Close,
    /// Add palette entry `i` to the focused arena at the playhead.
    Add(usize),
}

/// The position of the last `/` in `p`.
pub open spec fn last_slash(p: Seq<char>) -> Option<int>
    decreases p.len(),
{
    if p.len() == 0 {
        None
    } else if p.last() == '/' {
        Some(p.len() - 1)
    } else {
        last_slash(p.drop_last())
    }
}

/// The first row whose path is `p`.
pub open spec fn row_with_path(rows: Seq<RowModel>, p: Seq<char>, from: int) -> Option<int>
    decreases rows.len() - from,
{
    if from < 0 || from >= rows.len() {
        None
    } else if rows[from].path == p {
        Some(from)
    } else {
        row_with_path(rows, p, from + 1)
    }
}

/// The focus after `→`/`←` and `Enter` on the focused `row`, and the action.
pub open spec fn row_keys(m: BrowserModel, row: RowModel, right: bool, left: bool, enter: bool) -> (
    BrowserModel,
    BrowserAction,
) {
    let mr = if right && row.kind is Dir {
        if row.kind->expanded {
            let last = last_index(m.rows.len() as int);
            BrowserModel {
                focused: if m.focused + 1 <= last {
                    m.focused + 1
                } else {
                    last
                },
                ..m
            }
        } else {
            rebuilt(BrowserModel { expanded: m.expanded.insert(row.path), ..m })
        }
    } else {
        m
    };
    let ml = if left {
        if row.kind == (RowKind::Dir { expanded: true }) {
            rebuilt(BrowserModel { expanded: mr.expanded.remove(row.path), ..mr })
        } else {
            match last_slash(row.path) {
                Some(k) => match row_with_path(mr.rows, row.path.subrange(0, k), 0) {
                    Some(at) => BrowserModel { focused: at, ..mr },
                    None => mr,
                },
                None => mr,
            }
        }
    } else {
        mr
    };
    (ml, if enter && row.kind is Entry {
        BrowserAction::Add(row.kind->palette)
    } else {
        BrowserAction::Stay
    })
}

/// The state after typing `typed` into the filter (a fresh filter first
/// saves the expanded directories, to restore when it is cleared).
pub open spec fn typed_into(m: BrowserModel, typed: Seq<char>) -> BrowserModel {
    if typed.len() == 0 {
        m
    } else {
        rebuilt(
            BrowserModel {
                saved: if m.filter is None {
                    Some(m.expanded)
                } else {
                    m.saved
                },
                filter: Some(
                    match m.filter {
                        Some(f) => f,
                        None => Seq::empty(),
                    } + typed,
                ),
                focused: 0,
                ..m
            },
        )
    }
}

/// The state after `Backspace`: one character less; an emptied filter is
/// gone and the saved expansion comes back.
pub open spec fn backspaced(m: BrowserModel) -> BrowserModel {
    match m.filter {
        Some(f) => {
            let f2 = if f.len() > 0 {
                f.drop_last()
            } else {
                f
            };
            rebuilt(
                if f2.len() == 0 {
                    BrowserModel {
                        filter: None,
                        expanded: match m.saved {
                            Some(x) => x,
                            None => m.expanded,
                        },
                        saved: None,
                        ..m
                    }
                } else {
                    BrowserModel { filter: Some(f2), ..m }
                },
            )
        },
        None => m,
    }
}

/// The browser after one frame of keys, and what the caller does.
pub open spec fn keys_spec(m: BrowserModel, k: BrowserKeys) -> (BrowserModel, BrowserAction) {
    if k.escape {
        if m.filter is Some {
            (
                rebuilt(
                    BrowserModel {
                        filter: None,
                        expanded: match m.saved {
                            Some(x) => x,
                            None => m.expanded,
                        },
                        saved: None,
                        ..m
                    },
                ),
                BrowserAction::Stay,
            )
        } else {
            (m, BrowserAction::Close)
        }
    } else {
        let last = last_index(m.rows.len() as int);
        let f1 = if k.down {
            if m.focused + 1 <= last {
                m.focused + 1
            } else {
                last
            }
        } else {
            m.focused
        };
        let f2 = if k.up {
            if f1 == 0 {
                0
            } else {
                f1 - 1
            }
        } else {
            f1
        };
        let f3 = if k.home {
            0
        } else {
            f2
        };
        let f4 = if k.end {
            last
        } else {
            f3
        };
        let s = if f4 < m.scroll_row {
            f4
        } else if f4 >= m.scroll_row + crate::browser::VISIBLE {
            f4 - crate::browser::VISIBLE + 1
        } else {
            m.scroll_row
        };
        let m2 = BrowserModel { focused: f4, scroll_row: s, ..m };
        let (m3, act) = if 0 <= f4 < m.rows.len() {
            row_keys(m2, m.rows[f4], k.right, k.left, k.enter)
        } else {
            (m2, BrowserAction::Stay)
        };
        let m4 = typed_into(m3, k.typed@);
        let m5 = if k.backspace {
            backspaced(m4)
        } else {
            m4
        };
        (m5, act)
    }
}

/// A copy of a list of paths.
fn copy_paths(v: &Vec<Vec<char>>) -> (r: Vec<Vec<char>>)
    ensures
        path_set(r@) == path_set(v@),
        r@.len() == v@.len(),
        forall|i: int| 0 <= i < v@.len() ==> #[trigger] r@[i]@ == v@[i]@,
{
    let mut r: Vec<Vec<char>> = Vec::new();
    let mut i: usize = 0;
    while i < v.len()
        invariant
            i <= v@.len(),
            r@.len() == i,
            forall|x: int| 0 <= x < i ==> #[trigger] r@[x]@ == v@[x]@,
        decreases v@.len() - i,
    {
        r.push(copy_vec(&v[i]));
        i = i + 1;
    }
    proof {
        assert forall|p: Seq<char>| path_set(r@).contains(p) == path_set(v@).contains(p) by {
            if path_set(r@).contains(p) {
                let w = choose|w: int| 0 <= w < r@.len() && #[trigger] r@[w]@ == p;
                assert(v@[w]@ == p);
            }
            if path_set(v@).contains(p) {
                let w = choose|w: int| 0 <= w < v@.len() && #[trigger] v@[w]@ == p;
                assert(r@[w]@ == p);
            }
        }
        assert(path_set(r@) =~= path_set(v@));
    }
    r
}

/// `v` without `p`.
fn remove_path(v: &Vec<Vec<char>>, p: &Vec<char>) -> (r: Vec<Vec<char>>)
    ensures
        path_set(r@) == path_set(v@).remove(p@),
{
    let mut r: Vec<Vec<char>> = Vec::new();
    let mut i: usize = 0;
    while i < v.len()
        invariant
            i <= v@.len(),
            forall|x: int| 0 <= x < r@.len() ==> #[trigger] r@[x]@ != p@ && path_set(v@).contains(r@[x]@),
            forall|x: int| 0 <= x < i && v@[x]@ != p@ ==> path_set(r@).contains(#[trigger] v@[x]@),
        decreases v@.len() - i,
    {
        if !same_chars(&v[i], p) {
            let ghost before = r@;
            r.push(copy_vec(&v[i]));
            proof {
                assert(r@[r@.len() - 1]@ == v@[i as int]@);
                assert forall|x: int| 0 <= x < i + 1 && v@[x]@ != p@ implies path_set(r@).contains(
                    #[trigger] v@[x]@,
                ) by {
                    if x < i {
                        let w = choose|w: int| 0 <= w < before.len() && #[trigger] before[w]@ == v@[x]@;
                        assert(r@[w] == before[w]);
                    } else {
                        assert(r@[r@.len() - 1]@ == v@[x]@);
                    }
                }
                assert(path_set(v@).contains(v@[i as int]@));
            }
        }
        i = i + 1;
    }
    proof {
        assert forall|q: Seq<char>| path_set(r@).contains(q) == path_set(v@).remove(p@).contains(q) by {
            if path_set(r@).contains(q) {
                let w = choose|w: int| 0 <= w < r@.len() && #[trigger] r@[w]@ == q;
            }
            if path_set(v@).remove(p@).contains(q) {
                let w = choose|w: int| 0 <= w < v@.len() && #[trigger] v@[w]@ == q;
            }
        }
        assert(path_set(r@) =~= path_set(v@).remove(p@));
    }
    r
}

/// The first row whose path is `p`.
fn find_row(rows: &Vec<BrowserRow>, p: &Vec<char>) -> (r: Option<usize>)
    ensures
        r matches Some(i) ==> row_with_path(rows_view(rows@), p@, 0) == Some(i as int),
        r is None ==> row_with_path(rows_view(rows@), p@, 0) is None,
{
    let ghost rv = rows_view(rows@);
    let mut i: usize = 0;
    while i < rows.len()
        invariant
            i <= rows@.len(),
            rv == rows_view(rows@),
            row_with_path(rv, p@, 0) == row_with_path(rv, p@, i as int),
        decreases rows@.len() - i,
    {
        proof {
            assert(rv[i as int] == rows@[i as int]@);
        }
        if same_chars(&rows[i].path, p) {
            return Some(i);
        }
        i = i + 1;
    }
    None
}

/// Where the last `/` of `p` is.
fn find_last_slash(p: &Vec<char>) -> (r: Option<usize>)
    ensures
        r matches Some(k) ==> last_slash(p@) == Some(k as int) && k < p@.len(),
        r is None ==> last_slash(p@) is None,
{
    let mut n = p.len();
    proof {
        assert(p@.subrange(0, n as int) =~= p@);
    }
    while n > 0
        invariant
            n <= p@.len(),
            last_slash(p@) == last_slash(p@.subrange(0, n as int)),
        decreases n,
    {
        proof {
            assert(p@.subrange(0, n as int).drop_last() =~= p@.subrange(0, n - 1));
            assert(p@.subrange(0, n as int).last() == p@[n - 1]);
        }
        if p[n - 1] == '/' {
            return Some(n - 1);
        }
        n = n - 1;
    }
    None
}

/// The first `k` characters of `p`.
fn prefix_chars(p: &Vec<char>, k: usize) -> (r: Vec<char>)
    requires
        k <= p@.len(),
    ensures
        r@ == p@.subrange(0, k as int),
{
    let mut r: Vec<char> = Vec::new();
    let mut i: usize = 0;
    while i < k
        invariant
            i <= k <= p@.len(),
            r@ == p@.subrange(0, i as int),
        decreases k - i,
    {
        r.push(p[i]);
        proof {
            assert(p@.subrange(0, i + 1) =~= p@.subrange(0, i as int).push(p@[i as int]));
        }
        i = i + 1;
    }
    r
}

impl BrowserState {
    /// Handles one frame of keys: `Esc` drops the filter first and closes the
    /// panel second; the arrows, `Home` and `End` move the focus (scrolling
    /// the least that keeps it in view); `→` opens a directory (or steps into
    /// an open one), `←` closes one (or jumps to the parent directory);
    /// `Enter` on an entry adds it; typed characters extend the filter and
    /// `Backspace` shortens it.
    pub fn browser_keys(&mut self, keys: &BrowserKeys) -> (act: BrowserAction)
        requires
            old(self).focused < usize::MAX,
            old(self).scroll_row + crate::browser::VISIBLE <= usize::MAX,
        ensures
            (final(self)@, act) == keys_spec(old(self)@, *keys),
    {
        if keys.escape {
            return self.escape();
        }
        self.navigate(keys.down, keys.up, keys.home, keys.end);
        let ghost m2 = self@;
        let mut act = BrowserAction::Stay;
        if self.focused < self.rows.len() {
            act = self.row_keys(keys.right, keys.left, keys.enter);
        }
        proof {
            assert(rows_view(old(self).rows@).len() == old(self).rows@.len());
        }
        self.type_filter(&keys.typed);
        if keys.backspace {
            self.backspace();
        }
        act
    }

    /// `Esc`: drops the filter (restoring the expansion it saved), or asks to
    /// close the panel.
    fn escape(&mut self) -> (act: BrowserAction)
        ensures
            old(self)@.filter is Some ==> act == BrowserAction::Stay && final(self)@ == rebuilt(
                BrowserModel {
                    filter: None,
                    expanded: match old(self)@.saved {
                        Some(x) => x,
                        None => old(self)@.expanded,
                    },
                    saved: None,
                    ..old(self)@
                },
            ),
            old(self)@.filter is None ==> act == BrowserAction::Close && final(self)@ == old(self)@,
    {
        if self.filter.is_some() {
            self.filter = None;
            let saved = self.saved_expanded.take();
            match saved {
                Some(x) => {
                    self.expanded = x;
                },
                None => {},
            }
            self.rebuild_projection();
            return BrowserAction::Stay;
        }
        BrowserAction::Close
    }

    /// The arrows, `Home` and `End`, then the least scroll that keeps the
    /// focus in view.
    fn navigate(&mut self, down: bool, up: bool, home: bool, end: bool)
        requires
            old(self).focused < usize::MAX,
            old(self).scroll_row + crate::browser::VISIBLE <= usize::MAX,
        ensures
            ({
                let m = old(self)@;
                let last = last_index(m.rows.len() as int);
                let f1 = if down {
                    if m.focused + 1 <= last {
                        m.focused + 1
                    } else {
                        last
                    }
                } else {
                    m.focused
                };
                let f2 = if up {
                    if f1 == 0 {
                        0
                    } else {
                        f1 - 1
                    }
                } else {
                    f1
                };
                let f3 = if home {
                    0
                } else {
                    f2
                };
                let f4 = if end {
                    last
                } else {
                    f3
                };
                let s = if f4 < m.scroll_row {
                    f4
                } else if f4 >= m.scroll_row + crate::browser::VISIBLE {
                    f4 - crate::browser::VISIBLE + 1
                } else {
                    m.scroll_row
                };
                final(self)@ == BrowserModel { focused: f4, scroll_row: s, ..m }
            }),
    {
        let last: usize = if self.rows.len() == 0 {
            0
        } else {
            self.rows.len() - 1
        };
        proof {
            assert(rows_view(self.rows@).len() == self.rows@.len());
        }
        if down {
            self.focused = if self.focused + 1 <= last {
                self.focused + 1
            } else {
                last
            };
        }
        if up {
            self.focused = if self.focused == 0 {
                0
            } else {
                self.focused - 1
            };
        }
        if home {
            self.focused = 0;
        }
        if end {
            self.focused = last;
        }
        self.scroll_row = crate::browser::keep_in_view(self.focused, self.scroll_row);
    }

    /// `→`, `←` and `Enter` on the focused row.
    fn row_keys(&mut self, right: bool, left: bool, enter: bool) -> (act: BrowserAction)
        requires
            old(self).focused < old(self).rows@.len(),
        ensures
            (final(self)@, act) == row_keys(
                old(self)@,
                old(self)@.rows[old(self).focused as int],
                right,
                left,
                enter,
            ),
    {
        let f = self.focused;
        let path = copy_vec(&self.rows[f].path);
        let kind = self.rows[f].kind;
        proof {
            assert(rows_view(self.rows@)[f as int] == self.rows@[f as int]@);
        }
        let ghost m0 = self@;
        let ghost row = m0.rows[f as int];
        if right {
            match kind {
                RowKind::Dir { expanded } => {
                    if expanded {
                        let last2: usize = if self.rows.len() == 0 {
                            0
                        } else {
                            self.rows.len() - 1
                        };
                        proof {
                            assert(rows_view(self.rows@).len() == self.rows@.len());
                        }
                        self.focused = if self.focused + 1 <= last2 {
                            self.focused + 1
                        } else {
                            last2
                        };
                    } else {
                        let ghost before = self.expanded@;
                        self.expanded.push(copy_vec(&path));
                        proof {
                            assert(path_set(self.expanded@) =~= path_set(before).insert(path@)) by {
                                assert forall|q: Seq<char>| path_set(self.expanded@).contains(q)
                                    == path_set(before).insert(path@).contains(q) by {
                                    if q == path@ {
                                        assert(self.expanded@[self.expanded@.len() - 1]@ == q);
                                    }
                                    if path_set(self.expanded@).contains(q) && q != path@ {
                                        let w = choose|w: int| 0 <= w < self.expanded@.len() && #[trigger] self.expanded@[w]@ == q;
                                        assert(w < before.len());
                                        assert(before[w] == self.expanded@[w]);
                                    }
                                    if path_set(before).contains(q) {
                                        let w = choose|w: int| 0 <= w < before.len() && #[trigger] before[w]@ == q;
                                        assert(self.expanded@[w] == before[w]);
                                    }
                                }
                            }
                        }
                        self.rebuild_projection();
                    }
                },
                RowKind::Entry { .. } => {},
            }
        }
        let ghost mr = self@;
        if left {
            let open = match kind {
                RowKind::Dir { expanded } => expanded,
                RowKind::Entry { .. } => false,
            };
            if open {
                self.expanded = remove_path(&self.expanded, &path);
                self.rebuild_projection();
            } else {
                match find_last_slash(&path) {
                    Some(k) => {
                        let parent = prefix_chars(&path, k);
                        match find_row(&self.rows, &parent) {
                            Some(at) => {
                                self.focused = at;
                            },
                            None => {},
                        }
                    },
                    None => {},
                }
            }
        }
        let mut act = BrowserAction::Stay;
        if enter {
            match kind {
                RowKind::Entry { palette } => {
                    act = BrowserAction::Add(palette);
                },
                RowKind::Dir { .. } => {},
            }
        }
        act
    }

    /// Typed characters extend the filter (a fresh one first saves the
    /// expansion); the focus returns to the top.
    fn type_filter(&mut self, typed: &Vec<char>)
        ensures
            final(self)@ == typed_into(old(self)@, typed@),
    {
        if typed.len() == 0 {
            return;
        }
        if self.filter.is_none() {
            self.saved_expanded = Some(copy_paths(&self.expanded));
        }
        let mut f = match &self.filter {
            Some(x) => copy_vec(x),
            None => Vec::new(),
        };
        let ghost f0 = f@;
        let mut i: usize = 0;
        while i < typed.len()
            invariant
                i <= typed@.len(),
                f@ == f0 + typed@.subrange(0, i as int),
            decreases typed@.len() - i,
        {
            f.push(typed[i]);
            proof {
                assert(typed@.subrange(0, i + 1) =~= typed@.subrange(0, i as int).push(typed@[i as int]));
            }
            i = i + 1;
        }
        proof {
            assert(typed@.subrange(0, typed@.len() as int) =~= typed@);
        }
        self.filter = Some(f);
        self.focused = 0;
        self.rebuild_projection();
    }

    /// `Backspace` while filtering.
    fn backspace(&mut self)
        ensures
            final(self)@ == backspaced(old(self)@),
    {
        let current = self.filter.take();
        match current {
            Some(mut f) => {
                let ghost f0 = f@;
                let _ = f.pop();
                proof {
                    if f0.len() > 0 {
                        assert(f@ =~= f0.drop_last());
                    }
                }
                if f.len() == 0 {
                    let saved = self.saved_expanded.take();
                    match saved {
                        Some(x) => {
                            self.expanded = x;
                        },
                        None => {},
                    }
                } else {
                    self.filter = Some(f);
                }
                self.rebuild_projection();
            },
            None => {},
        }
    }
}

/// The browser after a click on row `index`: the row takes the focus; a
/// directory opens or closes; an entry arms a drag toward the board. A
/// click past the rows does nothing.
pub open spec fn clicked(m: BrowserModel, index: int) -> BrowserModel {
    if 0 <= index < m.rows.len() {
        let row = m.rows[index];
        let f = BrowserModel { focused: index, ..m };
        match row.kind {
            RowKind::Dir { expanded } => rebuilt(
                BrowserModel {
                    expanded: if expanded {
                        f.expanded.remove(row.path)
                    } else {
                        f.expanded.insert(row.path)
                    },
                    ..f
                },
            ),
            RowKind::Entry { palette } => BrowserModel { dragging: Some(palette), ..f },
        }
    } else {
        m
    }
}

impl BrowserState {
    /// A click on row `index` of the projection.
    pub fn row_click(&mut self, index: usize)
        ensures
            final(self)@ == clicked(old(self)@, index as int),
    {
        proof {
            assert(rows_view(self.rows@).len() == self.rows@.len());
        }
        if index >= self.rows.len() {
            return;
        }
        proof {
            assert(rows_view(self.rows@)[index as int] == self.rows@[index as int]@);
        }
        self.focused = index;
        let kind = self.rows[index].kind;
        match kind {
            RowKind::Dir { expanded } => {
                let path = copy_vec(&self.rows[index].path);
                if expanded {
                    self.expanded = remove_path(&self.expanded, &path);
                } else {
                    let ghost before = self.expanded@;
                    self.expanded.push(path);
                    proof {
                        let p = self.rows@[index as int].path@;
                        assert(path_set(self.expanded@) =~= path_set(before).insert(p)) by {
                            assert forall|q: Seq<char>| path_set(self.expanded@).contains(q)
                                == path_set(before).insert(p).contains(q) by {
                                if q == p {
                                    assert(self.expanded@[self.expanded@.len() - 1]@ == q);
                                }
                                if path_set(self.expanded@).contains(q) && q != p {
                                    let w = choose|w: int| 0 <= w < self.expanded@.len() && #[trigger] self.expanded@[w]@ == q;
                                    assert(w < before.len());
                                    assert(before[w] == self.expanded@[w]);
                                }
                                if path_set(before).contains(q) {
                                    let w = choose|w: int| 0 <= w < before.len() && #[trigger] before[w]@ == q;
                                    assert(self.expanded@[w] == before[w]);
                                }
                            }
                        }
                    }
                }
                self.rebuild_projection();
            },
            RowKind::Entry { palette } => {
                self.dragging = Some(palette);
            },
        }
    }
}

/// The panel header: `ENTITIES`, with the filter being typed after it.
pub open spec fn header_spec(filter: Option<Seq<char>>) -> Seq<char> {
    match filter {
        Some(f) => "ENTITIES / "@ + f + seq!['_'],
        None => "ENTITIES"@,
    }
}

/// The panel header line (the filter readout).
pub fn header_line(filter: &Option<Vec<char>>) -> (h: String)
    ensures
        h@ == header_spec(filter_view(*filter)),
{
    match filter {
        Some(f) => {
            let mut chars = crate::versions::chars_of("ENTITIES / ");
            let ghost head = chars@;
            let mut i: usize = 0;
            while i < f.len()
                invariant
                    i <= f@.len(),
                    chars@ == head + f@.subrange(0, i as int),
                decreases f@.len() - i,
            {
                chars.push(f[i]);
                proof {
                    assert(f@.subrange(0, i + 1) =~= f@.subrange(0, i as int).push(f@[i as int]));
                }
                i = i + 1;
            }
            chars.push('_');
            proof {
                assert(f@.subrange(0, f@.len() as int) =~= f@);
                assert(chars@ =~= header_spec(filter_view(*filter)));
            }
            string_from_chars(&chars)
        },
        None => "ENTITIES".to_owned(),
    }
}

/// The text a mounted row shows: a directory behind its disclosure
/// triangle (`\u{25be}` open, `\u{25b8}` closed), an entry by its label.
pub open spec fn row_text(r: RowModel) -> Seq<char> {
    match r.kind {
        RowKind::Dir { expanded } => seq![if expanded { '\u{25be}' } else { '\u{25b8}' }, ' '] + r.label,
        RowKind::Entry { .. } => r.label,
    }
}

/// The text of a mounted row.
pub fn row_line(row: &BrowserRow) -> (s: String)
    ensures
        s@ == row_text(row@),
{
    let mut chars: Vec<char> = Vec::new();
    if let RowKind::Dir { expanded } = row.kind {
        chars.push(if expanded { '\u{25be}' } else { '\u{25b8}' });
        chars.push(' ');
    }
    let mut label = copy_vec(&row.label);
    chars.append(&mut label);
    proof {
        assert(chars@ =~= row_text(row@));
    }
    string_from_chars(&chars)
}

/// The projection row pooled slot `slot` shows while rows `start..end` are
/// mounted: `start + slot`, if that is inside both the mounted range and the
/// projection's `len` rows.
pub fn pool_row(start: usize, end: usize, len: usize, slot: usize) -> (r: Option<usize>)
    requires
        start + slot <= usize::MAX,
    ensures
        r == if start + slot < end && start + slot < len {
            Some((start + slot) as usize)
        } else {
            None
        },
{
    let index = start + slot;
    if index < end && index < len {
        Some(index)
    } else {
        None
    }
}

/// `→` on an open directory steps into it: with nothing else pressed, a
/// focused expanded directory row that is not the last row hands the focus
/// to the next row (its first child); the rows and the expansion stay.
pub proof fn law_right_on_an_open_directory_steps_in(m: BrowserModel, k: BrowserKeys)
    requires
        !k.escape && !k.down && !k.up && !k.home && !k.end && !k.left && !k.enter && !k.backspace,
        k.right,
        k.typed@.len() == 0,
        0 <= m.focused,
        m.focused + 1 < m.rows.len(),
        m.rows[m.focused].kind == (RowKind::Dir { expanded: true }),
    ensures
        keys_spec(m, k).0.focused == m.focused + 1,
        keys_spec(m, k).0.rows == m.rows,
        keys_spec(m, k).0.expanded == m.expanded,
        keys_spec(m, k).1 == BrowserAction::Stay,
{
}

} // verus!
