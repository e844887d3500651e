//! The reference store: a flat, line-based record format holding the
//! user's shopping-list references.
//!
//! Each record line holds the five tab-separated fields
//! `path, name, scale, kind, quantity`. Comment lines start with `#`,
//! blank lines are ignored, and a line with fewer than three fields is
//! skipped. No escaping is performed, so a tab inside a field corrupts
//! its line — a documented limitation.
//!
//! Parsing and rendering are pure: reading and writing the backing
//! file is the caller's business, as a whole-file read-modify-write
//! cycle. That cycle is not synchronized: concurrent writers to the
//! same file race, and the last writer wins — acceptable for a
//! single-user store, and a caller that needs more must serialize
//! mutations itself.
use vstd::prelude::*;

use crate::scale_text::{is_scale_text, spec_is_scale_text, spec_strip_sign};
use crate::text::{
    chars_eq_ignore_ascii_case, chars_to_string, lemma_lines_step, lemma_split_step,
    lemma_split_whole, lemma_trim_end_concat, lemma_trim_end_empty, lemma_trim_end_is_take,
    lemma_trim_of_trim_end, lemma_trim_strip_cr, lines_of, spec_ascii_lower, spec_free_of,
    spec_is_space, spec_lines, spec_split, spec_strip_cr, spec_trim, spec_trim_end,
    spec_trim_start, split_chars, str_to_chars, trim_chars,
};

verus! {

/// The kind of a stored reference: a recipe pointer or a free-form
/// custom item.
#[derive(Debug, Clone, Copy, PartialEq, Eq, Structural)]
pub enum ShoppingListItemKind {
    Recipe,
    Custom,
}

/// The kind a record carries when its kind field is absent or not
/// recognised.
pub open spec fn spec_default_kind() -> ShoppingListItemKind {
    ShoppingListItemKind::Recipe
}

/// The kind denoted by a kind field: `custom` up to ASCII case means
/// `Custom`; anything else, including `recipe`, means `Recipe`.
pub open spec fn spec_kind_of_field(s: Seq<char>) -> ShoppingListItemKind {
    if spec_ascii_lower(s) == "custom"@ {
        ShoppingListItemKind::Custom
    } else {
        ShoppingListItemKind::Recipe
    }
}

/// The canonical text of a kind, as written in the store file.
pub open spec fn spec_kind_text(k: ShoppingListItemKind) -> Seq<char> {
    match k {
        ShoppingListItemKind::Recipe => "recipe"@,
        ShoppingListItemKind::Custom => "custom"@,
    }
}

impl ShoppingListItemKind {
    /// The canonical lower-case text of this kind.
    pub fn as_str(&self) -> (r: &'static str)
        ensures
            r@ == spec_kind_text(*self),
    {
        match self {
            ShoppingListItemKind::Recipe => "recipe",
            ShoppingListItemKind::Custom => "custom",
        }
    }

    /// Parse a kind field, case-insensitively, defaulting to `Recipe`.
    pub fn from_text(s: &str) -> (r: ShoppingListItemKind)
        ensures
            r == spec_kind_of_field(s@),
    {
        let v = str_to_chars(s);
        kind_of_chars(&v)
    }
}

impl Default for ShoppingListItemKind {
    /// The default kind is `Recipe`.
    fn default() -> (r: Self)
        ensures
            r == spec_default_kind(),
    {
        ShoppingListItemKind::Recipe
    }
}

fn kind_of_chars(v: &Vec<char>) -> (r: ShoppingListItemKind)
    ensures
        r == spec_kind_of_field(v@),
{
    let custom = str_to_chars("custom");
    proof {
        reveal_strlit("custom");
        assert(spec_ascii_lower("custom"@) =~= "custom"@);
    }
    if chars_eq_ignore_ascii_case(v, &custom) {
        ShoppingListItemKind::Custom
    } else {
        ShoppingListItemKind::Recipe
    }
}

/// The mathematical image of one stored reference.
pub ghost struct SpecItem {
    pub path: Seq<char>,
    pub name: Seq<char>,
    pub scale: Seq<char>,
    pub kind: ShoppingListItemKind,
    pub quantity: Option<Seq<char>>,
}

/// One stored reference: a recipe path with a scale, or a custom item
/// with an optional quantity. The scale is carried as decimal text.
#[derive(Debug, Clone)]
pub struct ShoppingListItem {
    pub path: String,
    pub name: String,
    pub scale: String,
    pub kind: ShoppingListItemKind,
    pub quantity: Option<String>,
}

impl View for ShoppingListItem {
    type V = SpecItem;

    open spec fn view(&self) -> SpecItem {
        SpecItem {
            path: self.path@,
            name: self.name@,
            scale: self.scale@,
            kind: self.kind,
            quantity: match self.quantity {
                Some(q) => Some(q@),
                None => None,
            },
        }
    }
}

/// The item a record line denotes, or `None` for blank lines, comment
/// lines and lines with fewer than three fields.
pub open spec fn spec_parse_line(line: Seq<char>) -> Option<SpecItem> {
    let t = spec_trim(line);
    if t.len() == 0 || t[0] == '#' {
        None
    } else {
        let parts = spec_split(t, '\t');
        if parts.len() >= 3 {
            Some(
                SpecItem {
                    path: parts[0],
                    name: parts[1],
                    scale: if spec_is_scale_text(parts[2]) {
                        parts[2]
                    } else {
                        seq!['1']
                    },
                    kind: if parts.len() >= 4 {
                        spec_kind_of_field(parts[3])
                    } else {
                        spec_default_kind()
                    },
                    quantity: if parts.len() >= 5 && spec_trim(parts[4]).len() > 0 {
                        Some(parts[4])
                    } else {
                        None
                    },
                },
            )
        } else {
            None
        }
    }
}

/// The items denoted by a sequence of lines, in order.
pub open spec fn spec_parse_lines(ls: Seq<Seq<char>>) -> Seq<SpecItem>
    decreases ls.len(),
{
    if ls.len() == 0 {
        Seq::empty()
    } else {
        (match spec_parse_line(ls[0]) {
            Some(it) => seq![it],
            None => Seq::empty(),
        }) + spec_parse_lines(ls.drop_first())
    }
}

/// The items held in a whole store file.
pub open spec fn spec_parse_content(text: Seq<char>) -> Seq<SpecItem> {
    spec_parse_lines(spec_lines(text))
}

/// The record line of one item, without its newline.
pub open spec fn spec_item_line(it: SpecItem) -> Seq<char> {
    it.path + seq!['\t'] + it.name + seq!['\t'] + it.scale + seq!['\t'] + spec_kind_text(it.kind)
        + seq!['\t'] + (match it.quantity {
        Some(q) => q,
        None => Seq::empty(),
    })
}

/// The record line of one item, newline-terminated.
pub open spec fn spec_render_item(it: SpecItem) -> Seq<char> {
    spec_item_line(it) + seq!['\n']
}

/// The record lines of a sequence of items.
pub open spec fn spec_render_items(items: Seq<SpecItem>) -> Seq<char>
    decreases items.len(),
{
    if items.len() == 0 {
        Seq::empty()
    } else {
        spec_render_items(items.drop_last()) + spec_render_item(items.last())
    }
}

/// The two-line header comment written at the top of every store file,
/// followed by a blank line.
pub open spec fn spec_header() -> Seq<char> {
    "# Shopping List"@ + seq!['\n'] + "# Format: path<TAB>name<TAB>scale<TAB>kind<TAB>quantity"@
        + seq!['\n'] + seq!['\n']
}

/// A whole store file: the header comment followed by one record line
/// per item, in order; no item is ever dropped.
pub open spec fn spec_render_content(items: Seq<SpecItem>) -> Seq<char> {
    spec_header() + spec_render_items(items)
}

/// Parse a whole store file. Blank lines, comment lines and malformed
/// lines are skipped, never an error; a missing kind field or an
/// unrecognised one falls back to `Recipe`; a scale field that is not
/// valid decimal text falls back to `1`; a blank quantity field means
/// no quantity.
pub fn parse_store_content(text: &str) -> (r: Vec<ShoppingListItem>)
    ensures
        r@.map_values(|it: ShoppingListItem| it@) == spec_parse_content(text@),
{
    let chars = str_to_chars(text);
    let ls = lines_of(&chars);
    let ghost lsv = ls@.map_values(|p: Vec<char>| p@);
    let mut out: Vec<ShoppingListItem> = Vec::new();
    proof {
        assert(lsv.skip(0) == lsv);
        assert(out@.map_values(|it: ShoppingListItem| it@) =~= Seq::<SpecItem>::empty());
        assert(Seq::<SpecItem>::empty() + spec_parse_lines(lsv) =~= spec_parse_lines(lsv));
    }
    let mut i: usize = 0;
    while i < ls.len()
        invariant
            0 <= i <= ls@.len(),
            lsv == ls@.map_values(|p: Vec<char>| p@),
            spec_parse_content(chars@) == out@.map_values(|it: ShoppingListItem| it@)
                + spec_parse_lines(lsv.skip(i as int)),
            chars@ == text@,
        decreases ls@.len() - i,
    {
        proof {
            assert(lsv.skip(i as int).drop_first() =~= lsv.skip(i + 1 as int));
            assert(lsv.skip(i as int)[0] == lsv[i as int]);
        }
        let line = &ls[i];
        let t = trim_chars(line);
        if t.len() > 0 && t[0] != '#' {
            let parts = split_chars(&t, '\t');
            let ghost pv = parts@.map_values(|p: Vec<char>| p@);
            if parts.len() >= 3 {
                let kind = if parts.len() >= 4 {
                    assert(parts@[3]@ == pv[3]);
                    kind_of_chars(&parts[3])
                } else {
                    ShoppingListItemKind::Recipe
                };
                let quantity = if parts.len() >= 5 {
                    assert(parts@[4]@ == pv[4]);
                    let tq = trim_chars(&parts[4]);
                    if tq.len() > 0 {
                        Some(chars_to_string(&parts[4]))
                    } else {
                        None
                    }
                } else {
                    None
                };
                assert(parts@[2]@ == pv[2]);
                let scale = if is_scale_text(&parts[2]) {
                    chars_to_string(&parts[2])
                } else {
                    let one = String::from_str("1");
                    proof {
                        reveal_strlit("1");
                        assert(one@ =~= seq!['1']);
                    }
                    one
                };
                assert(parts@[0]@ == pv[0] && parts@[1]@ == pv[1]);
                let item = ShoppingListItem {
                    path: chars_to_string(&parts[0]),
                    name: chars_to_string(&parts[1]),
                    scale,
                    kind,
                    quantity,
                };
                let ghost prevv = out@;
                proof {
                    assert(item@ == spec_parse_line(lsv[i as int]).unwrap());
                }
                out.push(item);
                proof {
                    prevv.lemma_push_map_commute(|it: ShoppingListItem| it@, item);
                    assert(prevv.map_values(|it: ShoppingListItem| it@) + (seq![item@]
                        + spec_parse_lines(lsv.skip(i + 1 as int))) =~= out@.map_values(
                        |it: ShoppingListItem| it@,
                    ) + spec_parse_lines(lsv.skip(i + 1 as int)));
                }
            } else {
                proof {
                    assert(spec_parse_line(lsv[i as int]) is None);
                }
            }
        } else {
            proof {
                assert(spec_parse_line(lsv[i as int]) is None);
            }
        }
        i = i + 1;
    }
    proof {
        assert(lsv.skip(lsv.len() as int) =~= Seq::<Seq<char>>::empty());
        assert(out@.map_values(|it: ShoppingListItem| it@) + Seq::<SpecItem>::empty()
            =~= out@.map_values(|it: ShoppingListItem| it@));
    }
    out
}

/// Render a whole store file: header comment, then one record line per
/// item in the given order.
pub fn render_store_content(items: &Vec<ShoppingListItem>) -> (r: String)
    ensures
        r@ == spec_render_content(items@.map_values(|it: ShoppingListItem| it@)),
{
    let ghost m = items@.map_values(|it: ShoppingListItem| it@);
    let mut out = String::from_str(
        "# Shopping List\n# Format: path<TAB>name<TAB>scale<TAB>kind<TAB>quantity\n\n",
    );
    proof {
        reveal_strlit("# Shopping List\n# Format: path<TAB>name<TAB>scale<TAB>kind<TAB>quantity\n\n");
        reveal_strlit("# Shopping List");
        reveal_strlit("# Format: path<TAB>name<TAB>scale<TAB>kind<TAB>quantity");
        assert(out@ =~= spec_header());
        assert(m.take(0) =~= Seq::<SpecItem>::empty());
        assert(out@ + spec_render_items(m.take(0)) =~= out@);
    }
    let mut i: usize = 0;
    while i < items.len()
        invariant
            0 <= i <= items@.len(),
            m == items@.map_values(|it: ShoppingListItem| it@),
            out@ == spec_header() + spec_render_items(m.take(i as int)),
        decreases items@.len() - i,
    {
        let it = &items[i];
        out.append(it.path.as_str());
        out.append("\t");
        out.append(it.name.as_str());
        out.append("\t");
        out.append(it.scale.as_str());
        out.append("\t");
        out.append(it.kind.as_str());
        out.append("\t");
        match &it.quantity {
            Some(q) => {
                out.append(q.as_str());
            },
            None => {},
        }
        out.append("\n");
        proof {
            reveal_strlit("\t");
            reveal_strlit("\n");
            assert("\t"@ =~= seq!['\t']);
            assert("\n"@ =~= seq!['\n']);
            assert(m.take(i + 1 as int).drop_last() =~= m.take(i as int));
            assert(m.take(i + 1 as int).last() == m[i as int]);
            assert(out@ =~= spec_header() + spec_render_items(m.take(i + 1 as int)));
        }
        i = i + 1;
    }
    proof {
        assert(m.take(m.len() as int) =~= m);
    }
    out
}

/// Whether a field may appear in a record line without corrupting it:
/// free of tabs and line breaks. A tab inside a field corrupts parsing;
/// no escaping is performed.
pub open spec fn spec_field_clean(s: Seq<char>) -> bool {
    forall|i: int| 0 <= i < s.len() ==> s[i] != '\t' && s[i] != '\n'
}

/// Whether an item renders to a single record line that parses back to
/// one item: a non-empty path that does not open a comment, clean
/// fields, a valid scale and a non-blank quantity.
pub open spec fn spec_line_wf(it: SpecItem) -> bool {
    &&& it.path.len() > 0
    &&& !spec_is_space(it.path[0])
    &&& it.path[0] != '#'
    &&& spec_field_clean(it.path)
    &&& spec_field_clean(it.name)
    &&& spec_field_clean(it.scale)
    &&& spec_is_scale_text(it.scale)
    &&& match it.quantity {
        Some(q) => spec_field_clean(q) && spec_trim(q).len() > 0,
        None => true,
    }
}

/// Whether an item survives a save/load cycle unchanged: well-formed for
/// a line, and with no trailing whitespace on its quantity.
pub open spec fn spec_wf_item(it: SpecItem) -> bool {
    &&& spec_line_wf(it)
    &&& match it.quantity {
        Some(q) => !spec_is_space(q.last()),
        None => true,
    }
}

/// The image of an item after a save/load cycle: only trailing
/// whitespace of the quantity is shed.
pub open spec fn spec_norm_item(it: SpecItem) -> SpecItem {
    SpecItem {
        quantity: match it.quantity {
            Some(q) => Some(spec_trim_end(q)),
            None => None,
        },
        ..it
    }
}

/// The sequence with the first item whose path is `path` removed, and
/// every other item kept in order.
pub open spec fn spec_remove_first(items: Seq<SpecItem>, path: Seq<char>) -> Seq<SpecItem>
    decreases items.len(),
{
    if items.len() == 0 {
        items
    } else if items[0].path == path {
        items.drop_first()
    } else {
        seq![items[0]] + spec_remove_first(items.drop_first(), path)
    }
}

/// Remove the first item whose path equals `path`, if any; later items
/// keep their order. Returns whether anything was removed.
pub fn remove_first_matching(items: &mut Vec<ShoppingListItem>, path: &str) -> (removed: bool)
    ensures
        final(items)@.map_values(|it: ShoppingListItem| it@) == spec_remove_first(
            old(items)@.map_values(|it: ShoppingListItem| it@),
            path@,
        ),
        removed <==> exists|j: int|
            0 <= j < old(items)@.len() && old(items)@[j]@.path == path@,
{
    let ghost m = items@.map_values(|it: ShoppingListItem| it@);
    let pv = str_to_chars(path);
    let mut j: usize = 0;
    while j < items.len()
        invariant
            0 <= j <= items@.len(),
            pv@ == path@,
            items@ == old(items)@,
            m == items@.map_values(|it: ShoppingListItem| it@),
            forall|k: int| 0 <= k < j ==> m[k].path != path@,
        decreases items@.len() - j,
    {
        let cand = str_to_chars(items[j].path.as_str());
        if crate::text::chars_eq(&cand, &pv) {
            assert(m[j as int].path == path@);
            assert(old(items)@[j as int]@.path == path@);
            let ghost before = items@;
            let _ = items.remove(j);
            proof {
                lemma_remove_first_at(m, path@, j as int);
                assert(items@ == before.remove(j as int));
                assert forall|k: int| 0 <= k < items@.len() implies (#[trigger] items@[k])@ == (
                m.subrange(0, j as int) + m.skip(j + 1))[k] by {
                    if k < j {
                        assert(items@[k] == before[k]);
                    } else {
                        assert(items@[k] == before[k + 1]);
                    }
                }
                assert(items@.map_values(|it: ShoppingListItem| it@) =~= m.subrange(0, j as int)
                    + m.skip(j + 1));
            }
            return true;
        }
        j = j + 1;
    }
    proof {
        lemma_remove_first_none(m, path@);
        assert forall|k: int|
            0 <= k < old(items)@.len() implies old(items)@[k]@.path != path@ by {
            assert(m[k] == old(items)@[k]@);
        }
    }
    false
}

/// When the first match sits at `j`, removal keeps everything else in
/// place: one matching duplicate goes, the rest are unaffected.
pub proof fn lemma_remove_first_at(items: Seq<SpecItem>, path: Seq<char>, j: int)
    requires
        0 <= j < items.len(),
        items[j].path == path,
        forall|k: int| 0 <= k < j ==> items[k].path != path,
    ensures
        spec_remove_first(items, path) == items.subrange(0, j) + items.skip(j + 1),
        spec_remove_first(items, path).len() == items.len() - 1,
    decreases j,
{
    if j == 0 {
        assert(items.subrange(0, 0) + items.skip(1) =~= items.drop_first());
    } else {
        lemma_remove_first_at(items.drop_first(), path, j - 1);
        assert(items.drop_first().subrange(0, j - 1) =~= items.subrange(1, j));
        assert(items.drop_first().skip(j) =~= items.skip(j + 1));
        assert(seq![items[0]] + (items.subrange(1, j) + items.skip(j + 1)) =~= items.subrange(
            0,
            j,
        ) + items.skip(j + 1));
    }
}

/// With no matching path, removal is a no-op, not an error.
pub proof fn lemma_remove_first_none(items: Seq<SpecItem>, path: Seq<char>)
    requires
        forall|k: int| 0 <= k < items.len() ==> items[k].path != path,
    ensures
        spec_remove_first(items, path) == items,
    decreases items.len(),
{
    if items.len() > 0 {
        lemma_remove_first_none(items.drop_first(), path);
        assert(seq![items[0]] + items.drop_first() =~= items);
    }
}

proof fn lemma_kind_field_facts()
    ensures
        spec_kind_of_field("recipe"@) == ShoppingListItemKind::Recipe,
        spec_kind_of_field("custom"@) == ShoppingListItemKind::Custom,
        "recipe"@.len() == 6,
        "custom"@.len() == 6,
        spec_free_of("recipe"@, '\t'),
        spec_free_of("recipe"@, '\n'),
        spec_free_of("custom"@, '\t'),
        spec_free_of("custom"@, '\n'),
        !spec_is_space("recipe"@.last()),
        !spec_is_space("custom"@.last()),
{
    reveal_strlit("recipe");
    reveal_strlit("custom");
    assert(spec_ascii_lower("recipe"@) =~= "recipe"@);
    assert(spec_ascii_lower("custom"@) =~= "custom"@);
    assert(spec_ascii_lower("recipe"@)[0] == 'r');
    assert("custom"@[0] == 'c');
}

proof fn lemma_kind_text_trim(k: ShoppingListItemKind)
    ensures
        spec_trim_end(spec_kind_text(k)) == spec_kind_text(k),
        spec_kind_of_field(spec_kind_text(k)) == k,
        spec_free_of(spec_kind_text(k), '\t'),
        spec_free_of(spec_kind_text(k), '\n'),
        spec_kind_text(k).len() == 6,
{
    lemma_kind_field_facts();
    match k {
        ShoppingListItemKind::Recipe => {
            assert(!spec_is_space("recipe"@.last()));
        },
        ShoppingListItemKind::Custom => {
            assert(!spec_is_space("custom"@.last()));
        },
    }
}

/// A well-formed item's record line parses back to exactly that item,
/// up to trailing whitespace of the quantity.
proof fn lemma_parse_item_line(it: SpecItem)
    requires
        spec_line_wf(it),
    ensures
        spec_parse_line(spec_item_line(it)) == Some(spec_norm_item(it)),
{
    lemma_kind_text_trim(it.kind);
    let tab = seq!['\t'];
    let kd = spec_kind_text(it.kind);
    let body = spec_item_line(it);
    let a3 = it.path + tab + it.name + tab + it.scale + tab + kd;
    assert(body[0] == it.path[0]);
    assert(spec_trim_start(body) == body);
    assert(spec_is_space('\t'));
    match it.quantity {
        None => {
            assert(body =~= a3 + tab);
            lemma_trim_end_concat(a3, tab);
            assert(spec_trim_end(tab) == spec_trim_end(tab.drop_last()));
            assert(tab.drop_last() =~= Seq::<char>::empty());
            let a2 = it.path + tab + it.name + tab + it.scale + tab;
            assert(a3 =~= a2 + kd);
            lemma_trim_end_concat(a2, kd);
            assert(spec_trim_end(a3 + tab) == a2 + kd);
            assert(spec_trim(body) == a3) by {
                assert(a2 + kd =~= a3);
            }
            let r1 = it.name + tab + it.scale + tab + kd;
            assert(a3 =~= it.path + tab + r1);
            lemma_split_step(it.path, r1, '\t');
            let r2 = it.scale + tab + kd;
            assert(r1 =~= it.name + tab + r2);
            lemma_split_step(it.name, r2, '\t');
            assert(r2 =~= it.scale + tab + kd);
            lemma_split_step(it.scale, kd, '\t');
            lemma_split_whole(kd, '\t');
            assert(spec_split(a3, '\t') =~= seq![it.path, it.name, it.scale, kd]);
            assert(spec_parse_line(body) == Some(spec_norm_item(it)));
        },
        Some(q) => {
            if spec_trim_end(q).len() == 0 {
                lemma_trim_end_empty(q);
                assert(false);
            }
            let q2 = spec_trim_end(q);
            assert(body =~= (a3 + tab) + q);
            lemma_trim_end_concat(a3 + tab, q);
            assert(spec_trim(body) == (a3 + tab) + q2);
            let t = (a3 + tab) + q2;
            lemma_trim_end_is_take(q);
            assert(spec_free_of(q2, '\t')) by {
                assert forall|i: int| 0 <= i < q2.len() implies q2[i] != '\t' by {
                    assert(q2[i] == q[i]);
                }
            }
            let r1 = it.name + tab + it.scale + tab + kd + tab + q2;
            assert(t =~= it.path + tab + r1);
            lemma_split_step(it.path, r1, '\t');
            let r2 = it.scale + tab + kd + tab + q2;
            assert(r1 =~= it.name + tab + r2);
            lemma_split_step(it.name, r2, '\t');
            let r3 = kd + tab + q2;
            assert(r2 =~= it.scale + tab + r3);
            lemma_split_step(it.scale, r3, '\t');
            assert(r3 =~= kd + tab + q2);
            lemma_split_step(kd, q2, '\t');
            lemma_split_whole(q2, '\t');
            assert(spec_split(t, '\t') =~= seq![it.path, it.name, it.scale, kd, q2]);
            lemma_trim_of_trim_end(q);
            assert(spec_trim(q2).len() > 0);
            assert(spec_parse_line(body) == Some(spec_norm_item(it)));
        },
    }
}

proof fn lemma_render_items_front(items: Seq<SpecItem>)
    requires
        items.len() > 0,
    ensures
        spec_render_items(items) == spec_render_item(items[0]) + spec_render_items(
            items.drop_first(),
        ),
    decreases items.len(),
{
    if items.len() == 1 {
        assert(items.drop_last() =~= Seq::<SpecItem>::empty());
        assert(items.drop_first() =~= Seq::<SpecItem>::empty());
        assert(Seq::<char>::empty() + spec_render_item(items[0]) =~= spec_render_item(items[0])
            + Seq::<char>::empty());
    } else {
        let d = items.drop_last();
        lemma_render_items_front(d);
        assert(d[0] == items[0]);
        assert(d.drop_first() =~= items.drop_first().drop_last());
        assert(items.drop_first().last() == items.last());
        assert(items.drop_first().len() > 0);
        assert((spec_render_item(items[0]) + spec_render_items(items.drop_first().drop_last()))
            + spec_render_item(items.last()) =~= spec_render_item(items[0]) + (spec_render_items(
            items.drop_first().drop_last(),
        ) + spec_render_item(items.last())));
    }
}

proof fn lemma_item_line_clean(it: SpecItem)
    requires
        spec_line_wf(it),
    ensures
        spec_free_of(spec_item_line(it), '\n'),
{
    lemma_kind_text_trim(it.kind);
}

/// Parsing is blind to one trailing carriage return on a line.
proof fn lemma_parse_line_strip_cr(l: Seq<char>)
    ensures
        spec_parse_line(spec_strip_cr(l)) == spec_parse_line(l),
{
    lemma_trim_strip_cr(l);
}

/// Rendered record lines of well-formed items load back as those items,
/// each with its quantity's trailing whitespace shed.
proof fn lemma_parse_render_items(items: Seq<SpecItem>)
    requires
        forall|j: int| 0 <= j < items.len() ==> spec_line_wf(#[trigger] items[j]),
    ensures
        spec_parse_lines(spec_lines(spec_render_items(items))) == items.map_values(
            |it: SpecItem| spec_norm_item(it),
        ),
    decreases items.len(),
{
    let norm = |it: SpecItem| spec_norm_item(it);
    if items.len() == 0 {
        assert(spec_lines(Seq::<char>::empty()) =~= Seq::<Seq<char>>::empty());
        assert(items.map_values(norm) =~= Seq::<SpecItem>::empty());
    } else {
        lemma_render_items_front(items);
        let it0 = items[0];
        let line = spec_item_line(it0);
        let rest = spec_render_items(items.drop_first());
        assert(spec_render_items(items) =~= line + seq!['\n'] + rest);
        lemma_item_line_clean(it0);
        lemma_lines_step(line, rest);
        let ls = seq![spec_strip_cr(line)] + spec_lines(rest);
        assert(spec_lines(spec_render_items(items)) == ls);
        assert(ls[0] == spec_strip_cr(line));
        assert(ls.drop_first() =~= spec_lines(rest));
        lemma_parse_line_strip_cr(line);
        lemma_parse_item_line(it0);
        lemma_parse_render_items(items.drop_first());
        assert(spec_parse_lines(ls) == seq![norm(it0)] + items.drop_first().map_values(norm));
        assert(seq![norm(it0)] + items.drop_first().map_values(norm) =~= items.map_values(norm));
    }
}

proof fn lemma_comment_line_none(l: Seq<char>)
    requires
        l.len() > 0,
        l[0] == '#',
    ensures
        spec_parse_line(l) is None,
{
    assert(!spec_is_space('#'));
    assert(spec_trim_start(l) == l);
    lemma_trim_end_is_take(l);
    let t = spec_trim_end(l);
    if t.len() > 0 {
        assert(t[0] == l[0]);
    }
}

/// The header comment contributes nothing when a store file is parsed.
proof fn lemma_parse_with_header(body: Seq<char>)
    ensures
        spec_parse_content(spec_header() + body) == spec_parse_lines(spec_lines(body)),
{
    reveal_strlit("# Shopping List");
    reveal_strlit("# Format: path<TAB>name<TAB>scale<TAB>kind<TAB>quantity");
    let h1 = "# Shopping List"@;
    let h2 = "# Format: path<TAB>name<TAB>scale<TAB>kind<TAB>quantity"@;
    let nl = seq!['\n'];
    let e = Seq::<char>::empty();
    assert(spec_header() + body =~= h1 + nl + (h2 + nl + (e + nl + body)));
    assert(spec_free_of(h1, '\n'));
    assert(spec_free_of(h2, '\n'));
    assert(spec_free_of(e, '\n'));
    lemma_lines_step(h1, h2 + nl + (e + nl + body));
    lemma_lines_step(h2, e + nl + body);
    lemma_lines_step(e, body);
    assert(spec_strip_cr(h1) == h1);
    assert(spec_strip_cr(h2) == h2);
    assert(spec_strip_cr(e) == e);
    lemma_comment_line_none(h1);
    lemma_comment_line_none(h2);
    assert(spec_trim(e) =~= e);
    assert(spec_parse_line(e) is None);
    let l1 = seq![h1] + (seq![h2] + (seq![e] + spec_lines(body)));
    assert(spec_lines(spec_header() + body) == l1);
    assert(l1[0] == h1);
    assert(l1.drop_first() =~= seq![h2] + (seq![e] + spec_lines(body)));
    let l2 = seq![h2] + (seq![e] + spec_lines(body));
    assert(l2[0] == h2);
    assert(l2.drop_first() =~= seq![e] + spec_lines(body));
    let l3 = seq![e] + spec_lines(body);
    assert(l3[0] == e);
    assert(l3.drop_first() =~= spec_lines(body));
    assert(spec_parse_lines(l1) == Seq::<SpecItem>::empty() + spec_parse_lines(l2));
    assert(spec_parse_lines(l2) == Seq::<SpecItem>::empty() + spec_parse_lines(l3));
    assert(spec_parse_lines(l3) == Seq::<SpecItem>::empty() + spec_parse_lines(spec_lines(body)));
    assert(Seq::<SpecItem>::empty() + spec_parse_lines(spec_lines(body)) =~= spec_parse_lines(
        spec_lines(body),
    ));
    assert(Seq::<SpecItem>::empty() + spec_parse_lines(l3) =~= spec_parse_lines(l3));
    assert(Seq::<SpecItem>::empty() + spec_parse_lines(l2) =~= spec_parse_lines(l2));
}

/// Saving items and loading the result yields the items back: exactly
/// for fully well-formed items, and up to trailing quantity whitespace
/// for any items that render to single lines.
pub proof fn lemma_save_load_round_trip(items: Seq<SpecItem>)
    requires
        forall|j: int| 0 <= j < items.len() ==> spec_line_wf(#[trigger] items[j]),
    ensures
        spec_parse_content(spec_render_content(items)) == items.map_values(
            |it: SpecItem| spec_norm_item(it),
        ),
        (forall|j: int| 0 <= j < items.len() ==> spec_wf_item(#[trigger] items[j]))
            ==> spec_parse_content(spec_render_content(items)) == items,
{
    lemma_parse_with_header(spec_render_items(items));
    lemma_parse_render_items(items);
    if forall|j: int| 0 <= j < items.len() ==> spec_wf_item(#[trigger] items[j]) {
        assert forall|j: int| 0 <= j < items.len() implies items.map_values(
            |it: SpecItem| spec_norm_item(it),
        )[j] == items[j] by {
            lemma_norm_wf_identity(items[j]);
        }
        assert(items.map_values(|it: SpecItem| spec_norm_item(it)) =~= items);
    }
}

/// The store file after appending one item: the old records followed by
/// the new one. Appending never merges or deduplicates, so the same
/// reference can be held several times with independent scales. When the
/// item is well-formed, loading the result yields the old records (up to
/// trailing quantity whitespace) with the new item as the last element.
pub fn content_after_add(content: &str, item: ShoppingListItem) -> (r: String)
    ensures
        r@ == spec_render_content(spec_parse_content(content@).push(item@)),
        spec_line_wf(item@) ==> spec_parse_content(r@) == spec_parse_content(
            content@,
        ).map_values(|it: SpecItem| spec_norm_item(it)).push(spec_norm_item(item@)),
        spec_line_wf(item@) ==> spec_parse_content(r@).len() == spec_parse_content(
            content@,
        ).len() + 1,
        spec_wf_item(item@) ==> spec_parse_content(r@).last() == item@,
{
    let mut items = parse_store_content(content);
    let ghost s0 = spec_parse_content(content@);
    let ghost iv = item@;
    items.push(item);
    proof {
        assert(items@.map_values(|it: ShoppingListItem| it@) =~= s0.push(iv));
        if spec_line_wf(iv) {
            lemma_loaded_items_line_wf(content@);
            assert forall|j: int| 0 <= j < s0.push(iv).len() implies spec_line_wf(
                #[trigger] s0.push(iv)[j],
            ) by {
                if j < s0.len() {
                    assert(s0.push(iv)[j] == s0[j]);
                }
            }
            lemma_save_load_round_trip(s0.push(iv));
            assert(s0.push(iv).map_values(|it: SpecItem| spec_norm_item(it)) =~= s0.map_values(
                |it: SpecItem| spec_norm_item(it),
            ).push(spec_norm_item(iv)));
            if spec_wf_item(iv) {
                lemma_norm_wf_identity(iv);
            }
        }
    }
    render_store_content(&items)
}

/// The store file after removing the first record whose path is `path`:
/// exactly one matching record goes when one exists, later duplicates
/// and all other records keep their order, and a missing match is a
/// no-op, never an error.
pub fn content_after_remove(content: &str, path: &str) -> (r: String)
    ensures
        r@ == spec_render_content(
            spec_remove_first(spec_parse_content(content@), path@),
        ),
        spec_parse_content(r@) == spec_remove_first(
            spec_parse_content(content@),
            path@,
        ).map_values(|it: SpecItem| spec_norm_item(it)),
        (exists|j: int|
            0 <= j < spec_parse_content(content@).len() && spec_parse_content(content@)[j].path
                == path@) ==> spec_parse_content(r@).len() == spec_parse_content(
            content@,
        ).len() - 1,
        !(exists|j: int|
            0 <= j < spec_parse_content(content@).len() && spec_parse_content(content@)[j].path
                == path@) ==> spec_parse_content(r@).len() == spec_parse_content(
            content@,
        ).len(),
{
    let mut items = parse_store_content(content);
    let ghost s0 = spec_parse_content(content@);
    let _ = remove_first_matching(&mut items, path);
    proof {
        lemma_loaded_items_line_wf(content@);
        lemma_remove_first_keeps_wf(s0, path@);
        lemma_remove_first_len(s0, path@);
        lemma_save_load_round_trip(spec_remove_first(s0, path@));
    }
    render_store_content(&items)
}

/// Removing by path keeps every remaining item, so well-formedness for
/// a line is preserved.
proof fn lemma_remove_first_keeps_wf(items: Seq<SpecItem>, path: Seq<char>)
    requires
        forall|j: int| 0 <= j < items.len() ==> spec_line_wf(#[trigger] items[j]),
    ensures
        forall|j: int|
            0 <= j < spec_remove_first(items, path).len() ==> spec_line_wf(
                #[trigger] spec_remove_first(items, path)[j],
            ),
    decreases items.len(),
{
    if items.len() > 0 && items[0].path != path {
        assert forall|j: int| 0 <= j < items.drop_first().len() implies spec_line_wf(
            #[trigger] items.drop_first()[j],
        ) by {
            assert(items.drop_first()[j] == items[j + 1]);
        }
        lemma_remove_first_keeps_wf(items.drop_first(), path);
        let out = spec_remove_first(items, path);
        assert forall|j: int| 0 <= j < out.len() implies spec_line_wf(#[trigger] out[j]) by {
            if j > 0 {
                assert(out[j] == spec_remove_first(items.drop_first(), path)[j - 1]);
            }
        }
    } else if items.len() > 0 {
        assert forall|j: int| 0 <= j < items.drop_first().len() implies spec_line_wf(
            #[trigger] items.drop_first()[j],
        ) by {
            assert(items.drop_first()[j] == items[j + 1]);
        }
    }
}

/// Removal takes exactly one item when a match exists and none
/// otherwise.
pub proof fn lemma_remove_first_len(items: Seq<SpecItem>, path: Seq<char>)
    ensures
        (exists|j: int| 0 <= j < items.len() && items[j].path == path)
            ==> spec_remove_first(items, path).len() == items.len() - 1,
        !(exists|j: int| 0 <= j < items.len() && items[j].path == path)
            ==> spec_remove_first(items, path) == items,
    decreases items.len(),
{
    if items.len() == 0 {
    } else if items[0].path == path {
    } else {
        lemma_remove_first_len(items.drop_first(), path);
        if exists|j: int| 0 <= j < items.len() && items[j].path == path {
            let j = choose|j: int| 0 <= j < items.len() && items[j].path == path;
            assert(items.drop_first()[j - 1].path == path);
        } else {
            assert forall|j: int|
                0 <= j < items.drop_first().len() implies items.drop_first()[j].path != path by {
                assert(items.drop_first()[j] == items[j + 1]);
            }
            assert(seq![items[0]] + items.drop_first() =~= items);
        }
    }
}

/// The store file holding no records at all: clearing the list. Loading
/// it back yields the empty sequence.
pub fn empty_store_content() -> (r: String)
    ensures
        r@ == spec_render_content(Seq::<SpecItem>::empty()),
        spec_parse_content(r@) == Seq::<SpecItem>::empty(),
{
    let items: Vec<ShoppingListItem> = Vec::new();
    let r = render_store_content(&items);
    proof {
        assert(items@.map_values(|it: ShoppingListItem| it@) =~= Seq::<SpecItem>::empty());
        lemma_save_load_round_trip(Seq::<SpecItem>::empty());
        assert(Seq::<SpecItem>::empty().map_values(|it: SpecItem| spec_norm_item(it))
            =~= Seq::<SpecItem>::empty());
    }
    r
}

proof fn lemma_one_is_scale_text()
    ensures
        spec_is_scale_text(seq!['1']),
{
    reveal_strlit("inf");
    reveal_strlit("infinity");
    reveal_strlit("nan");
    let one = seq!['1'];
    assert(one[0] == '1');
    assert(spec_strip_sign(one) == one);
    assert(spec_ascii_lower(one) =~= one);
    assert(one.drop_first() =~= Seq::<char>::empty());
    assert(crate::text::first_sep(Seq::<char>::empty(), 'e') == 0);
    assert(crate::text::first_sep(Seq::<char>::empty(), '.') == 0);
    assert(crate::text::first_sep(one, 'e') == 1 + crate::text::first_sep(
        one.drop_first(),
        'e',
    ));
    assert(crate::text::first_sep(one, '.') == 1 + crate::text::first_sep(
        one.drop_first(),
        '.',
    ));
    assert(spec_split(one, 'e') == seq![one]);
    assert(spec_split(one, '.') == seq![one]);
    assert(crate::scale_text::spec_all_digits(one));
    assert(spec_is_scale_text(one));
}

/// Every item a store file parses to is well-formed for a line, so a
/// load/save cycle never multiplies or loses records.
pub proof fn lemma_loaded_items_line_wf(text: Seq<char>)
    ensures
        forall|j: int|
            0 <= j < spec_parse_content(text).len() ==> spec_line_wf(
                #[trigger] spec_parse_content(text)[j],
            ),
{
    let ls = spec_lines(text);
    crate::text::lemma_split_pieces_clean(text, '\n', '\n');
    let raw = spec_split(text, '\n');
    assert forall|j: int| 0 <= j < ls.len() implies spec_free_of(#[trigger] ls[j], '\n') by {
        let kept = if raw.len() > 0 && raw.last().len() == 0 {
            raw.drop_last()
        } else {
            raw
        };
        assert(ls[j] == spec_strip_cr(kept[j]));
        assert(kept[j] == raw[j]);
        assert(spec_free_of(raw[j], '\n'));
        assert forall|i: int| 0 <= i < ls[j].len() implies ls[j][i] != '\n' by {
            assert(ls[j][i] == raw[j][i]);
        }
    }
    lemma_parse_lines_wf(ls);
}

proof fn lemma_parse_lines_wf(ls: Seq<Seq<char>>)
    requires
        forall|j: int| 0 <= j < ls.len() ==> spec_free_of(#[trigger] ls[j], '\n'),
    ensures
        forall|j: int|
            0 <= j < spec_parse_lines(ls).len() ==> spec_line_wf(
                #[trigger] spec_parse_lines(ls)[j],
            ),
    decreases ls.len(),
{
    if ls.len() > 0 {
        lemma_parse_line_yields_wf(ls[0]);
        assert forall|j: int| 0 <= j < ls.drop_first().len() implies spec_free_of(
            #[trigger] ls.drop_first()[j],
            '\n',
        ) by {
            assert(ls.drop_first()[j] == ls[j + 1]);
        }
        lemma_parse_lines_wf(ls.drop_first());
        let head = spec_parse_lines(ls);
        assert forall|j: int| 0 <= j < head.len() implies spec_line_wf(#[trigger] head[j]) by {
            match spec_parse_line(ls[0]) {
                Some(it) => {
                    if j > 0 {
                        assert(head[j] == spec_parse_lines(ls.drop_first())[j - 1]);
                    } else {
                        assert(head[0] == it);
                    }
                },
                None => {
                    assert(head[j] == spec_parse_lines(ls.drop_first())[j]);
                },
            }
        }
    }
}

proof fn lemma_parse_line_yields_wf(l: Seq<char>)
    requires
        spec_free_of(l, '\n'),
    ensures
        spec_parse_line(l) is Some ==> spec_line_wf(spec_parse_line(l)->Some_0),
{
    if spec_parse_line(l) is Some {
        let ts = spec_trim_start(l);
        let t = spec_trim(l);
        crate::text::lemma_trim_start_is_skip(l);
        lemma_trim_end_is_take(ts);
        assert(t == spec_trim_end(ts));
        assert(t.len() > 0);
        assert(ts.len() > 0);
        assert(t[0] == ts[0]);
        assert(!spec_is_space(t[0]));
        let a = l.len() - ts.len();
        assert(spec_free_of(t, '\n')) by {
            assert forall|i: int| 0 <= i < t.len() implies t[i] != '\n' by {
                assert(t[i] == ts[i]);
                assert(ts[i] == l[i + a]);
            }
        }
        crate::text::lemma_split_pieces_clean(t, '\t', '\t');
        crate::text::lemma_split_pieces_clean(t, '\t', '\n');
        let parts = spec_split(t, '\t');
        crate::text::lemma_first_sep_bounds(t, '\t');
        let fi = crate::text::first_sep(t, '\t');
        assert(spec_is_space('\t'));
        assert(fi != 0);
        if fi < t.len() {
            assert(parts[0] == t.take(fi));
            assert(parts[0][0] == t[0]);
        } else {
            assert(parts[0] == t);
        }
        let it = spec_parse_line(l)->Some_0;
        assert(it.path == parts[0]);
        assert(it.path.len() > 0 && !spec_is_space(it.path[0]) && it.path[0] != '#');
        assert(spec_field_clean(it.path) && spec_field_clean(it.name));
        if spec_is_scale_text(parts[2]) {
            assert(spec_field_clean(it.scale));
        } else {
            lemma_one_is_scale_text();
            assert(it.scale == seq!['1']);
            assert(spec_field_clean(it.scale)) by {
                assert forall|i: int| 0 <= i < it.scale.len() implies it.scale[i] != '\t'
                    && it.scale[i] != '\n' by {
                    assert(it.scale[i] == '1');
                }
            }
        }
        match it.quantity {
            Some(q) => {
                assert(q == parts[4]);
                assert(spec_field_clean(q) && spec_trim(q).len() > 0);
            },
            None => {},
        }
    }
}

/// A fully well-formed item is untouched by a save/load cycle.
proof fn lemma_norm_wf_identity(it: SpecItem)
    requires
        spec_wf_item(it),
    ensures
        spec_norm_item(it) == it,
{
    match it.quantity {
        Some(q) => {
            assert(q.len() > 0) by {
                if q.len() == 0 {
                    assert(spec_trim(q).len() == 0);
                }
            }
            assert(spec_trim_end(q) == q);
        },
        None => {},
    }
}

} // verus!
