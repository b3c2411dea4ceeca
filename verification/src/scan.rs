//! Reading a struct declaration, token by token, into its name and its
//! field descriptions.
//!
//! The reader is a small state machine over the tokens between the braces
//! (or parentheses) of the declaration. It tracks how far it is into a
//! field (`stage`), how many `:` it has seen since the last identifier
//! (`colons`) and how deep it is inside `<..>` (`depth`), and it records, for
//! the current field, its name, the last identifier of its type and whether
//! the type was wrapped in `Option`. After every token but a skipped `pub`,
//! the current field description is written into the field list under its
//! name: a new name is added at the end, a known name is overwritten in
//! place.
use vstd::prelude::*;

use crate::text::same_text;

verus! {

/// A token of a struct declaration.
pub enum Token {
    /// An identifier or keyword.
    Ident(String),
    /// A punctuation character.
    Punct(char),
    /// A literal, as written.
    Literal(String),
    /// A delimited group and the tokens inside it.
    Group(Vec<Token>),
}

/// What the reader records of a field.
pub struct FieldAttr {
    /// The field's name.
    pub name: String,
    /// The last identifier of the field's type.
    pub value_type: String,
    /// Whether the type was wrapped in `Option`.
    pub opt: bool,
}

/// The view of a [`FieldAttr`].
pub struct FieldSpec {
    /// The field's name.
    pub name: Seq<char>,
    /// The last identifier of the field's type.
    pub value_type: Seq<char>,
    /// Whether the type was wrapped in `Option`.
    pub opt: bool,
}

impl View for FieldAttr {
    type V = FieldSpec;

    open spec fn view(&self) -> FieldSpec {
        FieldSpec { name: self.name@, value_type: self.value_type@, opt: self.opt }
    }
}

impl Clone for FieldAttr {
    fn clone(&self) -> (r: Self)
        ensures
            r@ == self@,
    {
        FieldAttr { name: self.name.clone(), value_type: self.value_type.clone(), opt: self.opt }
    }
}

/// The views of a list of field descriptions.
pub open spec fn fields_view(fields: Seq<FieldAttr>) -> Seq<FieldSpec> {
    fields.map_values(|f: FieldAttr| f@)
}

/// No two field descriptions share a name.
pub open spec fn distinct_names(m: Seq<FieldSpec>) -> bool {
    forall|i: int, j: int| 0 <= i < m.len() && 0 <= j < m.len() && i != j ==> m[i].name != m[j].name
}

/// Some field description has this name.
pub open spec fn has_name(m: Seq<FieldSpec>, name: Seq<char>) -> bool {
    exists|i: int| 0 <= i < m.len() && m[i].name == name
}

/// The position of the field description with this name.
pub open spec fn name_index(m: Seq<FieldSpec>, name: Seq<char>) -> int {
    choose|i: int| 0 <= i < m.len() && m[i].name == name
}

/// The field list after writing `a` under its name.
pub open spec fn upsert(m: Seq<FieldSpec>, a: FieldSpec) -> Seq<FieldSpec> {
    if has_name(m, a.name) {
        m.update(name_index(m, a.name), a)
    } else {
        m.push(a)
    }
}

/// The reader's state inside one group.
pub struct ScanState {
    /// 0 before the first identifier, 1 when the next identifier may be a
    /// field name, 2 after a field name.
    pub stage: int,
    /// The number of `:` seen since the last identifier.
    pub colons: int,
    /// How many `<` are open.
    pub depth: int,
    /// The current field description.
    pub attr: FieldSpec,
}

/// The state at the start of every group.
pub open spec fn initial_state() -> ScanState {
    ScanState {
        stage: 0,
        colons: 0,
        depth: 0,
        attr: FieldSpec { name: Seq::empty(), value_type: Seq::empty(), opt: false },
    }
}

/// The state after an identifier `w`, and whether the field list is
/// written afterwards.
pub open spec fn ident_step(s: ScanState, w: Seq<char>) -> (ScanState, bool) {
    let s1 = if s.stage == 0 && s.colons < 2 && s.depth == 0 {
        ScanState {
            stage: s.stage + 1,
            colons: s.colons,
            depth: s.depth,
            attr: FieldSpec { name: s.attr.name, value_type: w, opt: s.attr.opt },
        }
    } else {
        s
    };
    if s1.stage == 1 && s1.colons < 2 && s1.depth == 0 {
        let a = FieldSpec { name: w, value_type: s1.attr.value_type, opt: false };
        if w == "pub"@ {
            (ScanState { stage: s1.stage, colons: s1.colons, depth: s1.depth, attr: a }, false)
        } else {
            (ScanState { stage: s1.stage + 1, colons: 0, depth: s1.depth, attr: a }, true)
        }
    } else {
        let stage = if !(s1.colons >= 2 && s1.depth == 0) {
            1
        } else {
            s1.stage
        };
        let opt = if s1.attr.value_type == "Option"@ {
            true
        } else {
            s1.attr.opt
        };
        (
            ScanState {
                stage,
                colons: 0,
                depth: s1.depth,
                attr: FieldSpec { name: s1.attr.name, value_type: w, opt },
            },
            true,
        )
    }
}

/// The state after a punctuation character.
pub open spec fn punct_step(s: ScanState, c: char) -> ScanState {
    ScanState {
        stage: s.stage,
        colons: if c == ':' {
            s.colons + 1
        } else {
            s.colons
        },
        depth: if c == '<' {
            s.depth + 1
        } else if c == '>' {
            s.depth - 1
        } else {
            s.depth
        },
        attr: s.attr,
    }
}

/// Whether a punctuation character would carry a counter out of the `i8`
/// range.
pub open spec fn punct_overflows(s: ScanState, c: char) -> bool {
    (c == ':' && s.colons == 127) || (c == '<' && s.depth == 127) || (c == '>' && s.depth == -128)
}

/// The state after a token inside a group, and whether the field list is
/// written afterwards.
pub open spec fn field_step(s: ScanState, tok: Token) -> (ScanState, bool) {
    match tok {
        Token::Ident(w) => ident_step(s, w@),
        Token::Punct(c) => (punct_step(s, c), true),
        _ => (s, true),
    }
}

/// Whether a token would carry a counter out of the `i8` range.
pub open spec fn would_overflow(s: ScanState, tok: Token) -> bool {
    match tok {
        Token::Punct(c) => punct_overflows(s, c),
        _ => false,
    }
}

/// The state and field list after the tokens `toks`, from state `s` and
/// field list `m`.
pub open spec fn run_group(s: ScanState, m: Seq<FieldSpec>, toks: Seq<Token>) -> (
    ScanState,
    Seq<FieldSpec>,
)
    decreases toks.len(),
{
    if toks.len() == 0 {
        (s, m)
    } else {
        let (s2, write) = field_step(s, toks[0]);
        let m2 = if write {
            upsert(m, s2.attr)
        } else {
            m
        };
        run_group(s2, m2, toks.drop_first())
    }
}

/// No token of `toks`, read from state `s`, carries a counter out of the
/// `i8` range.
pub open spec fn group_fits(s: ScanState, toks: Seq<Token>) -> bool
    decreases toks.len(),
{
    toks.len() == 0 || (!would_overflow(s, toks[0]) && group_fits(
        field_step(s, toks[0]).0,
        toks.drop_first(),
    ))
}

/// The field list after reading a group, starting from field list `m`.
pub open spec fn scan_group(m: Seq<FieldSpec>, toks: Seq<Token>) -> Seq<FieldSpec> {
    run_group(initial_state(), m, toks).1
}

/// The struct name and field list after the top-level tokens `toks`, the
/// first of which is at position `index`. Every identifier but the very
/// first token becomes the struct name; every group is read for fields into
/// the same field list.
pub open spec fn run_item(index: int, name: Seq<char>, m: Seq<FieldSpec>, toks: Seq<Token>) -> (
    Seq<char>,
    Seq<FieldSpec>,
)
    decreases toks.len(),
{
    if toks.len() == 0 {
        (name, m)
    } else {
        let (name2, m2) = match toks[0] {
            Token::Ident(w) => (if index != 0 {
                w@
            } else {
                name
            }, m),
            Token::Group(g) => (name, scan_group(m, g@)),
            _ => (name, m),
        };
        run_item(index + 1, name2, m2, toks.drop_first())
    }
}

/// The struct name and field list of a declaration.
pub open spec fn scan_item(toks: Seq<Token>) -> (Seq<char>, Seq<FieldSpec>) {
    run_item(0, Seq::empty(), Seq::empty(), toks)
}

/// Every group of the declaration is read without a counter leaving the
/// `i8` range.
pub open spec fn item_fits(toks: Seq<Token>) -> bool {
    forall|i: int|
        0 <= i < toks.len() ==> match #[trigger] toks[i] {
            Token::Group(g) => group_fits(initial_state(), g@),
            _ => true,
        }
}

/// Writing a description under its name keeps the names distinct.
pub proof fn lemma_upsert_distinct(m: Seq<FieldSpec>, a: FieldSpec)
    requires
        distinct_names(m),
    ensures
        distinct_names(upsert(m, a)),
        has_name(upsert(m, a), a.name),
{
    if has_name(m, a.name) {
        let k = name_index(m, a.name);
        assert(upsert(m, a)[k] == a);
    } else {
        assert(upsert(m, a)[m.len() as int] == a);
    }
}

/// Reading a group keeps the names distinct.
pub proof fn lemma_run_group_distinct(s: ScanState, m: Seq<FieldSpec>, toks: Seq<Token>)
    requires
        distinct_names(m),
    ensures
        distinct_names(run_group(s, m, toks).1),
    decreases toks.len(),
{
    if toks.len() > 0 {
        let (s2, write) = field_step(s, toks[0]);
        if write {
            lemma_upsert_distinct(m, s2.attr);
        }
        let m2 = if write {
            upsert(m, s2.attr)
        } else {
            m
        };
        lemma_run_group_distinct(s2, m2, toks.drop_first());
    }
}

/// Reading a declaration keeps the names distinct.
pub proof fn lemma_run_item_distinct(
    index: int,
    name: Seq<char>,
    m: Seq<FieldSpec>,
    toks: Seq<Token>,
)
    requires
        distinct_names(m),
    ensures
        distinct_names(run_item(index, name, m, toks).1),
    decreases toks.len(),
{
    if toks.len() > 0 {
        let m2 = match toks[0] {
            Token::Group(g) => {
                lemma_run_group_distinct(initial_state(), m, g@);
                scan_group(m, g@)
            },
            _ => m,
        };
        let name2 = match toks[0] {
            Token::Ident(w) => if index != 0 {
                w@
            } else {
                name
            },
            _ => name,
        };
        lemma_run_item_distinct(index + 1, name2, m2, toks.drop_first());
    }
}

/// The reader's state inside one group; see [`ScanState`]. The counters
/// are `i8`, and reading fails where one of them would overflow.
pub struct FieldScanner {
    pub stage: u8,
    pub colons: i8,
    pub depth: i8,
    pub attribute: FieldAttr,
}

impl View for FieldScanner {
    type V = ScanState;

    open spec fn view(&self) -> ScanState {
        ScanState {
            stage: self.stage as int,
            colons: self.colons as int,
            depth: self.depth as int,
            attr: self.attribute@,
        }
    }
}

impl FieldScanner {
    /// The state at the start of a group.
    pub fn new() -> (r: FieldScanner)
        ensures
            r@ == initial_state(),
    {
        FieldScanner {
            stage: 0,
            colons: 0,
            depth: 0,
            attribute: FieldAttr { name: String::new(), value_type: String::new(), opt: false },
        }
    }

    /// Reads one token; returns whether the field list is to be written.
    pub fn step(&mut self, tok: &Token) -> (write: bool)
        requires
            !would_overflow(old(self)@, *tok),
        ensures
            (final(self)@, write) == field_step(old(self)@, *tok),
    {
        match tok {
            Token::Ident(w) => {
                if self.stage == 0 && self.colons < 2 && self.depth == 0 {
                    self.attribute.value_type = w.clone();
                    self.stage = self.stage + 1;
                }
                if self.stage == 1 && self.colons < 2 && self.depth == 0 {
                    self.attribute.opt = false;
                    self.attribute.name = w.clone();
                    if same_text(&self.attribute.name, "pub") {
                        return false;
                    } else {
                        self.stage = self.stage + 1;
                    }
                } else {
                    if !(self.colons >= 2 && self.depth == 0) {
                        self.stage = 1;
                    }
                    if same_text(&self.attribute.value_type, "Option") {
                        self.attribute.opt = true;
                    }
                    self.attribute.value_type = w.clone();
                }
                self.colons = 0;
                true
            },
            Token::Punct(c) => {
                if *c == ':' {
                    self.colons = self.colons + 1;
                }
                if *c == '<' {
                    self.depth = self.depth + 1;
                }
                if *c == '>' {
                    self.depth = self.depth - 1;
                }
                true
            },
            _ => true,
        }
    }
}

/// Writes a field description under its name.
fn upsert_field(fields: &mut Vec<FieldAttr>, attr: &FieldAttr)
    requires
        distinct_names(fields_view(old(fields)@)),
    ensures
        fields_view(final(fields)@) == upsert(fields_view(old(fields)@), attr@),
        distinct_names(fields_view(final(fields)@)),
{
    let ghost m = fields_view(fields@);
    proof {
        lemma_upsert_distinct(m, attr@);
    }
    let n = fields.len();
    for i in 0..n
        invariant
            n == fields@.len(),
            m == fields_view(fields@),
            m == fields_view(old(fields)@),
            distinct_names(m),
            forall|j: int| 0 <= j < i ==> m[j].name != attr@.name,
    {
        if fields[i].name == attr.name {
            proof {
                assert(m[i as int].name == attr@.name);
                assert(has_name(m, attr@.name));
                let k = name_index(m, attr@.name);
                assert(k == i);
            }
            let a = attr.clone();
            fields.set(i, a);
            assert(fields_view(fields@) =~= m.update(i as int, attr@));
            assert(upsert(m, attr@) == m.update(i as int, attr@));
            return;
        }
    }
    assert(!has_name(m, attr@.name));
    fields.push(attr.clone());
    assert(fields_view(fields@) =~= m.push(attr@));
}

/// Reads the tokens of one group into the field list.
pub fn scan_group_tokens(fields: &mut Vec<FieldAttr>, toks: &Vec<Token>)
    requires
        distinct_names(fields_view(old(fields)@)),
        group_fits(initial_state(), toks@),
    ensures
        fields_view(final(fields)@) == scan_group(fields_view(old(fields)@), toks@),
        distinct_names(fields_view(final(fields)@)),
{
    let mut scanner = FieldScanner::new();
    let ghost m0 = fields_view(fields@);
    let n = toks.len();
    assert(toks@.skip(0) =~= toks@);
    for i in 0..n
        invariant
            n == toks@.len(),
            distinct_names(fields_view(fields@)),
            group_fits(scanner@, toks@.skip(i as int)),
            run_group(scanner@, fields_view(fields@), toks@.skip(i as int)) == run_group(
                initial_state(),
                m0,
                toks@,
            ),
    {
        let ghost rest = toks@.skip(i as int);
        assert(rest[0] == toks@[i as int]);
        assert(rest.drop_first() =~= toks@.skip(i + 1));
        let write = scanner.step(&toks[i]);
        if write {
            upsert_field(fields, &scanner.attribute);
        }
    }
    assert(toks@.skip(n as int) =~= Seq::<Token>::empty());
}

/// Whether every group of a declaration is read without a counter leaving
/// the `i8` range (the reader stops with an overflow otherwise).
pub fn field_counters_fit(item: &Vec<Token>) -> (b: bool)
    ensures
        b == item_fits(item@),
{
    let n = item.len();
    for i in 0..n
        invariant
            n == item@.len(),
            forall|j: int|
                0 <= j < i ==> match #[trigger] item@[j] {
                    Token::Group(g) => group_fits(initial_state(), g@),
                    _ => true,
                },
    {
        match &item[i] {
            Token::Group(g) => {
                if !group_fits_tokens(g) {
                    return false;
                }
            },
            _ => {},
        }
    }
    true
}

/// Whether a group is read without a counter leaving the `i8` range.
fn group_fits_tokens(toks: &Vec<Token>) -> (b: bool)
    ensures
        b == group_fits(initial_state(), toks@),
{
    let mut scanner = FieldScanner::new();
    let n = toks.len();
    assert(toks@.skip(0) =~= toks@);
    for i in 0..n
        invariant
            n == toks@.len(),
            group_fits(initial_state(), toks@) == group_fits(scanner@, toks@.skip(i as int)),
    {
        let ghost rest = toks@.skip(i as int);
        assert(rest[0] == toks@[i as int]);
        assert(rest.drop_first() =~= toks@.skip(i + 1));
        let overflow = match &toks[i] {
            Token::Punct(c) => (*c == ':' && scanner.colons == 127) || (*c == '<' && scanner.depth
                == 127) || (*c == '>' && scanner.depth == -128),
            _ => false,
        };
        if overflow {
            return false;
        }
        scanner.step(&toks[i]);
    }
    assert(toks@.skip(n as int) =~= Seq::<Token>::empty());
    true
}

/// A struct's name and its field descriptions, in the order the field list
/// holds them.
pub struct DerivedStruct {
    pub name: String,
    pub fields: Vec<FieldAttr>,
}

/// Reads a struct declaration: every identifier after the first token
/// becomes the struct's name, and every group is read for fields into one
/// field list, whose names are distinct.
pub fn derive_answer_fn(item: &Vec<Token>) -> (r: DerivedStruct)
    requires
        item@.len() < 0x8000_0000,
        item_fits(item@),
    ensures
        (r.name@, fields_view(r.fields@)) == scan_item(item@),
        distinct_names(fields_view(r.fields@)),
{
    let mut index: i32 = 0;
    let mut struct_name = String::new();
    let mut fields: Vec<FieldAttr> = Vec::new();
    proof {
        assert(fields_view(fields@) =~= Seq::<FieldSpec>::empty());
        lemma_run_item_distinct(0, Seq::empty(), Seq::empty(), item@);
    }
    let n = item.len();
    assert(item@.skip(0) =~= item@);
    for i in 0..n
        invariant
            n == item@.len(),
            n < 0x8000_0000,
            index == i,
            item_fits(item@),
            distinct_names(fields_view(fields@)),
            run_item(index as int, struct_name@, fields_view(fields@), item@.skip(i as int))
                == scan_item(item@),
    {
        let ghost rest = item@.skip(i as int);
        assert(rest[0] == item@[i as int]);
        assert(rest.drop_first() =~= item@.skip(i + 1));
        match &item[i] {
            Token::Ident(w) => {
                if index != 0 {
                    struct_name = w.clone();
                }
            },
            Token::Group(g) => {
                assert(group_fits(initial_state(), g@)) by {
                    assert(match item@[i as int] {
                        Token::Group(g) => group_fits(initial_state(), g@),
                        _ => true,
                    });
                }
                scan_group_tokens(&mut fields, g);
            },
            _ => {},
        }
        index = index + 1;
    }
    assert(item@.skip(n as int) =~= Seq::<Token>::empty());
    DerivedStruct { name: struct_name, fields }
}

} // verus!
