//! The syntax of a selection declaration.
//!
//! A selection is declared as a struct whose first fields are primary fields,
//! each `name: Read<Component>` or `name: Write<Component>`, optionally followed
//! by a comma; the fields after them are secondary fields, kept as tokens:
//!
//! ```text
//! #[attribute] struct Name { pos: Read<Position>, vel: Write<Velocity>, extra: Other }
//! ```
//!
//! The declaration arrives as a tree of tokens: identifiers (keywords among
//! them), single punctuation characters, literals, and delimited groups.

use vstd::prelude::*;

verus! {

/// A token of a selection declaration.
#[derive(Debug)]
pub enum SelectionToken {
    /// An identifier or keyword, by its bytes.
    Ident(Vec<u8>),
    /// A punctuation character.
    Punct(u8),
    /// A literal, by the bytes of its text.
    Literal(Vec<u8>),
    /// A group delimited by the given opening character (`(`, `[` or `{`).
    Group(u8, Vec<SelectionToken>),
}

/// Why a selection declaration could not be read.
#[derive(Debug, Clone, Copy, PartialEq, Eq, Structural)]
pub enum SelectionError {
    /// A `#` is not followed by a bracketed attribute.
    ExpectedAttribute,
    /// The keyword `struct` is missing.
    ExpectedStruct,
    /// The name of the selection is missing.
    ExpectedName,
    /// The braced body of the selection is missing.
    ExpectedBody,
    /// Tokens follow the body.
    UnexpectedToken,
    /// A field that starts like a primary field is not `name: Read<C>` or
    /// `name: Write<C>`.
    MalformedPrimaryField,
}

/// The bytes of `Read`.
pub open spec fn read_word() -> Seq<u8> {
    seq![82u8, 101u8, 97u8, 100u8]
}

/// The bytes of `Write`.
pub open spec fn write_word() -> Seq<u8> {
    seq![87u8, 114u8, 105u8, 116u8, 101u8]
}

/// The bytes of `struct`.
pub open spec fn struct_word() -> Seq<u8> {
    seq![115u8, 116u8, 114u8, 117u8, 99u8, 116u8]
}

/// The bytes of the identifier `t`, if it is one.
pub open spec fn ident_of(t: SelectionToken) -> Option<Seq<u8>> {
    match t {
        SelectionToken::Ident(v) => Some(v@),
        _ => None,
    }
}

/// `t` is the punctuation character `c`.
pub open spec fn is_punct(t: SelectionToken, c: u8) -> bool {
    t matches SelectionToken::Punct(p) && p == c
}

/// `t` is a group opened by `c`.
pub open spec fn is_group(t: SelectionToken, c: u8) -> bool {
    t matches SelectionToken::Group(d, _) && d == c
}

/// `t` is the identifier `Read` or `Write`.
pub open spec fn is_access(t: SelectionToken) -> bool {
    ident_of(t) == Some(read_word()) || ident_of(t) == Some(write_word())
}

/// A primary field starts at `i`: an identifier, a punctuation character, and
/// the identifier `Read` or `Write`.
pub open spec fn starts_primary(t: Seq<SelectionToken>, i: int) -> bool {
    &&& 0 <= i
    &&& i + 2 < t.len()
    &&& ident_of(t[i]) is Some
    &&& t[i + 1] is Punct
    &&& is_access(t[i + 2])
}

/// The tokens at `i` are `name : Read < Component >` or the same with `Write`.
pub open spec fn primary_ok(t: Seq<SelectionToken>, i: int) -> bool {
    &&& 0 <= i
    &&& i + 5 < t.len()
    &&& ident_of(t[i]) is Some
    &&& is_punct(t[i + 1], 58u8)
    &&& is_access(t[i + 2])
    &&& is_punct(t[i + 3], 60u8)
    &&& ident_of(t[i + 4]) is Some
    &&& is_punct(t[i + 5], 62u8)
}

/// Where the primary field at `i` ends: after its `>`, and after a comma that
/// follows it.
pub open spec fn primary_end(t: Seq<SelectionToken>, i: int) -> int {
    if i + 6 < t.len() && is_punct(t[i + 6], 44u8) {
        i + 7
    } else {
        i + 6
    }
}

/// A primary field as a value: whether it writes, and the bytes of its name,
/// its access and its component.
pub struct PrimaryFieldSpec {
    pub write: bool,
    pub name: Seq<u8>,
    pub access: Seq<u8>,
    pub component: Seq<u8>,
}

/// The primary field at `i`.
pub open spec fn primary_at(t: Seq<SelectionToken>, i: int) -> PrimaryFieldSpec {
    PrimaryFieldSpec {
        write: ident_of(t[i + 2]) == Some(write_word()),
        name: ident_of(t[i]).unwrap(),
        access: ident_of(t[i + 2]).unwrap(),
        component: ident_of(t[i + 4]).unwrap(),
    }
}

/// The primary fields from `i` on, and where they end; an error where a field
/// starts like a primary field but is not one.
pub open spec fn primaries_from(t: Seq<SelectionToken>, i: int) -> Result<(Seq<PrimaryFieldSpec>, int), SelectionError>
    decreases t.len() - i,
{
    if starts_primary(t, i) {
        if primary_ok(t, i) {
            match primaries_from(t, primary_end(t, i)) {
                Ok((fields, end)) => Ok((seq![primary_at(t, i)] + fields, end)),
                Err(e) => Err(e),
            }
        } else {
            Err(SelectionError::MalformedPrimaryField)
        }
    } else {
        Ok((Seq::empty(), i))
    }
}

/// Where the outer attributes from `i` on end: each is a `#` followed by a
/// bracketed group.
pub open spec fn attrs_end(t: Seq<SelectionToken>, i: int) -> Result<int, SelectionError>
    decreases t.len() - i,
{
    if 0 <= i < t.len() && is_punct(t[i], 35u8) {
        if i + 1 < t.len() && is_group(t[i + 1], 91u8) {
            attrs_end(t, i + 2)
        } else {
            Err(SelectionError::ExpectedAttribute)
        }
    } else {
        Ok(i)
    }
}

/// A selection declaration as a value: its name, its primary fields, and the
/// tokens of its other fields.
pub struct SelectionSpec {
    pub name: Seq<u8>,
    pub primary: Seq<PrimaryFieldSpec>,
    pub secondary: Seq<SelectionToken>,
}

/// Where the outer attributes end in tokens with a `#` and a bracketed group put
/// in front: two tokens later than in the tokens alone.
pub proof fn lemma_attrs_end_shift(t: Seq<SelectionToken>, prefix: Seq<SelectionToken>, i: int)
    requires
        prefix.len() == 2,
        is_punct(prefix[0], 35u8),
        is_group(prefix[1], 91u8),
        0 <= i,
    ensures
        attrs_end(prefix + t, i + 2) == (match attrs_end(t, i) {
            Ok(a) => Ok::<int, SelectionError>(a + 2),
            Err(e) => Err::<int, SelectionError>(e),
        }),
        attrs_end(t, i) matches Ok(a) ==> a >= i,
    decreases t.len() - i,
{
    let u = prefix + t;
    assert(u.len() == t.len() + 2);
    if 0 <= i < t.len() {
        assert(u[i + 2] == t[i]);
    }
    if i + 1 < t.len() {
        assert(u[i + 3] == t[i + 1]);
    }
    if 0 <= i < t.len() && is_punct(t[i], 35u8) && i + 1 < t.len() && is_group(t[i + 1], 91u8) {
        lemma_attrs_end_shift(t, prefix, i + 2);
    }
}

/// Law: outer attributes are skipped however many there are: putting a `#` and
/// a bracketed group in front of the tokens of a declaration does not change
/// what they declare.
pub proof fn lemma_extra_attribute_ignored(t: Seq<SelectionToken>, prefix: Seq<SelectionToken>)
    requires
        prefix.len() == 2,
        is_punct(prefix[0], 35u8),
        is_group(prefix[1], 91u8),
    ensures
        selection_of(prefix + t) == selection_of(t),
{
    let u = prefix + t;
    assert(u[0] == prefix[0] && u[1] == prefix[1]);
    lemma_attrs_end_shift(t, prefix, 0);
    assert(attrs_end(u, 0) == attrs_end(u, 2));
    match attrs_end(t, 0) {
        Ok(a) => {
            assert forall|k: int| 0 <= k < t.len() implies #[trigger] u[k + 2] == t[k] by {}
            if a < t.len() {
                assert(u[a + 2] == t[a]);
            }
            if a + 1 < t.len() {
                assert(u[a + 3] == t[a + 1]);
            }
            if a + 2 < t.len() {
                assert(u[a + 4] == t[a + 2]);
            }
        },
        Err(_) => {},
    }
}

/// The tokens inside the group `t`.
pub open spec fn group_tokens(t: SelectionToken) -> Seq<SelectionToken> {
    match t {
        SelectionToken::Group(_, body) => body@,
        _ => Seq::empty(),
    }
}

/// What the tokens `t` declare: outer attributes, `struct`, a name and a braced
/// body, and nothing after it; the body holds primary fields, then the rest.
pub open spec fn selection_of(t: Seq<SelectionToken>) -> Result<SelectionSpec, SelectionError> {
    match attrs_end(t, 0) {
        Err(e) => Err(e),
        Ok(a) => if !(a < t.len() && ident_of(t[a]) == Some(struct_word())) {
            Err(SelectionError::ExpectedStruct)
        } else if !(a + 1 < t.len() && ident_of(t[a + 1]) is Some) {
            Err(SelectionError::ExpectedName)
        } else if !(a + 2 < t.len() && is_group(t[a + 2], 123u8)) {
            Err(SelectionError::ExpectedBody)
        } else if a + 3 != t.len() {
            Err(SelectionError::UnexpectedToken)
        } else {
            let body = group_tokens(t[a + 2]);
            match primaries_from(body, 0) {
                Err(e) => Err(e),
                Ok((fields, end)) => Ok(SelectionSpec {
                    name: ident_of(t[a + 1]).unwrap(),
                    primary: fields,
                    secondary: body.subrange(end, body.len() as int),
                }),
            }
        }
    }
}

/// The components that the primary fields read, in order.
pub open spec fn read_components(fields: Seq<PrimaryFieldSpec>) -> Seq<Seq<u8>>
    decreases fields.len(),
{
    if fields.len() == 0 {
        Seq::empty()
    } else {
        let before = read_components(fields.drop_last());
        if fields.last().write { before } else { before.push(fields.last().component) }
    }
}

/// The components that the primary fields write, in order.
pub open spec fn write_components(fields: Seq<PrimaryFieldSpec>) -> Seq<Seq<u8>>
    decreases fields.len(),
{
    if fields.len() == 0 {
        Seq::empty()
    } else {
        let before = write_components(fields.drop_last());
        if fields.last().write { before.push(fields.last().component) } else { before }
    }
}

/// The bytes of each of `v`.
pub open spec fn bytes_of(v: Seq<Vec<u8>>) -> Seq<Seq<u8>> {
    v.map_values(|b: Vec<u8>| b@)
}

/// A primary field of a selection: a component it reads or writes.
#[derive(Debug)]
pub enum PrimarySelectionField {
    Read { name: Vec<u8>, access: Vec<u8>, component: Vec<u8> },
    Write { name: Vec<u8>, access: Vec<u8>, component: Vec<u8> },
}

impl View for PrimarySelectionField {
    type V = PrimaryFieldSpec;

    open spec fn view(&self) -> PrimaryFieldSpec {
        match self {
            PrimarySelectionField::Read { name, access, component } =>
                PrimaryFieldSpec { write: false, name: name@, access: access@, component: component@ },
            PrimarySelectionField::Write { name, access, component } =>
                PrimaryFieldSpec { write: true, name: name@, access: access@, component: component@ },
        }
    }
}

/// A copy of the bytes `v`.
fn copy_bytes(v: &Vec<u8>) -> (r: Vec<u8>)
    ensures
        r@ == v@,
{
    let r = v.clone();
    assert(r@ =~= v@);
    r
}

/// The bytes `v` are those of `Read`.
fn is_read_word(v: &Vec<u8>) -> (r: bool)
    ensures
        r == (v@ == read_word()),
{
    let r = v.len() == 4 && v[0] == 82u8 && v[1] == 101u8 && v[2] == 97u8 && v[3] == 100u8;
    if r {
        assert(v@ =~= read_word());
    }
    r
}

/// The bytes `v` are those of `Write`.
fn is_write_word(v: &Vec<u8>) -> (r: bool)
    ensures
        r == (v@ == write_word()),
{
    let r = v.len() == 5 && v[0] == 87u8 && v[1] == 114u8 && v[2] == 105u8 && v[3] == 116u8 && v[4] == 101u8;
    if r {
        assert(v@ =~= write_word());
    }
    r
}

/// The bytes `v` are those of `struct`.
fn is_struct_word(v: &Vec<u8>) -> (r: bool)
    ensures
        r == (v@ == struct_word()),
{
    let r = v.len() == 6 && v[0] == 115u8 && v[1] == 116u8 && v[2] == 114u8 && v[3] == 117u8
        && v[4] == 99u8 && v[5] == 116u8;
    if r {
        assert(v@ =~= struct_word());
    }
    r
}

/// The token `t` is `Read` or `Write`.
fn token_is_access(t: &SelectionToken) -> (r: bool)
    ensures
        r == is_access(*t),
{
    match t {
        SelectionToken::Ident(v) => is_read_word(v) || is_write_word(v),
        _ => false,
    }
}

/// The token `t` is the punctuation character `c`.
fn token_is_punct(t: &SelectionToken, c: u8) -> (r: bool)
    ensures
        r == is_punct(*t, c),
{
    match t {
        SelectionToken::Punct(p) => *p == c,
        _ => false,
    }
}

/// The token `t` is an identifier.
fn token_is_ident(t: &SelectionToken) -> (r: bool)
    ensures
        r == (ident_of(*t) is Some),
{
    match t {
        SelectionToken::Ident(_) => true,
        _ => false,
    }
}

/// A copy of the bytes of the identifier `t`.
fn ident_bytes(t: &SelectionToken) -> (r: Vec<u8>)
    requires
        ident_of(*t) is Some,
    ensures
        r@ == ident_of(*t).unwrap(),
{
    match t {
        SelectionToken::Ident(v) => copy_bytes(v),
        _ => Vec::new(),
    }
}

/// True when a primary field starts at `at` in `tokens`: an identifier, a
/// punctuation character, then `Read` or `Write`.
pub fn peek_is_primary_field(tokens: &Vec<SelectionToken>, at: usize) -> (r: bool)
    ensures
        r == starts_primary(tokens@, at as int),
{
    if at >= tokens.len() || tokens.len() - at < 3 {
        return false;
    }
    let p = match &tokens[at + 1] {
        SelectionToken::Punct(_) => true,
        _ => false,
    };
    token_is_ident(&tokens[at]) && p && token_is_access(&tokens[at + 2])
}

impl PrimarySelectionField {
    /// Reads the primary field that starts at `at`: `name : Read < Component >`
    /// or the same with `Write`, and a comma after it if there is one. Gives
    /// the field and where it ends.
    pub fn parse(tokens: &Vec<SelectionToken>, at: usize) -> (r: Result<(PrimarySelectionField, usize), SelectionError>)
        requires
            starts_primary(tokens@, at as int),
        ensures
            match r {
                Ok((field, end)) => primary_ok(tokens@, at as int) && field@ == primary_at(tokens@, at as int)
                    && end == primary_end(tokens@, at as int),
                Err(e) => !primary_ok(tokens@, at as int) && e == SelectionError::MalformedPrimaryField,
            },
    {
        if tokens.len() - at < 6 {
            return Err(SelectionError::MalformedPrimaryField);
        }
        if !(token_is_punct(&tokens[at + 1], 58u8) && token_is_punct(&tokens[at + 3], 60u8)
            && token_is_ident(&tokens[at + 4]) && token_is_punct(&tokens[at + 5], 62u8)) {
            return Err(SelectionError::MalformedPrimaryField);
        }
        let name = ident_bytes(&tokens[at]);
        let access = ident_bytes(&tokens[at + 2]);
        let component = ident_bytes(&tokens[at + 4]);
        let end = if tokens.len() - at > 6 && token_is_punct(&tokens[at + 6], 44u8) {
            at + 7
        } else {
            at + 6
        };
        if is_write_word(&access) {
            Ok((PrimarySelectionField::Write { name, access, component }, end))
        } else {
            Ok((PrimarySelectionField::Read { name, access, component }, end))
        }
    }

    /// The name of the field.
    pub fn name(&self) -> (r: Vec<u8>)
        ensures
            r@ == self@.name,
    {
        match self {
            PrimarySelectionField::Read { name, .. } => copy_bytes(name),
            PrimarySelectionField::Write { name, .. } => copy_bytes(name),
        }
    }

    /// The access of the field: `Read` or `Write`.
    pub fn access(&self) -> (r: Vec<u8>)
        ensures
            r@ == self@.access,
    {
        match self {
            PrimarySelectionField::Read { access, .. } => copy_bytes(access),
            PrimarySelectionField::Write { access, .. } => copy_bytes(access),
        }
    }

    /// The component the field reads or writes.
    pub fn component(&self) -> (r: Vec<u8>)
        ensures
            r@ == self@.component,
    {
        match self {
            PrimarySelectionField::Read { component, .. } => copy_bytes(component),
            PrimarySelectionField::Write { component, .. } => copy_bytes(component),
        }
    }
}

/// Reads the primary fields from `at` on, while the tokens start like one.
fn parse_primaries(tokens: &Vec<SelectionToken>, at: usize) -> (r: Result<(Vec<PrimarySelectionField>, usize), SelectionError>)
    requires
        at <= tokens.len(),
    ensures
        match (r, primaries_from(tokens@, at as int)) {
            (Ok((fields, end)), Ok((spec_fields, spec_end))) => fields@.map_values(|f: PrimarySelectionField| f@) == spec_fields
                && end == spec_end && end <= tokens.len(),
            (Err(e), Err(spec_e)) => e == spec_e,
            _ => false,
        },
{
    let mut fields: Vec<PrimarySelectionField> = Vec::new();
    let mut i = at;
    while peek_is_primary_field(tokens, i)
        invariant
            at <= i <= tokens.len(),
            primaries_from(tokens@, at as int) == (match primaries_from(tokens@, i as int) {
                Ok((rest, end)) => Ok((fields@.map_values(|f: PrimarySelectionField| f@) + rest, end)),
                Err(e) => Err(e),
            }),
        decreases tokens.len() - i,
    {
        let (field, end) = match PrimarySelectionField::parse(tokens, i) {
            Ok(p) => p,
            Err(e) => {
                return Err(e);
            },
        };
        proof {
            let old_fields = fields@.map_values(|f: PrimarySelectionField| f@);
            let new_fields = fields@.push(field).map_values(|f: PrimarySelectionField| f@);
            assert(new_fields =~= old_fields.push(field@));
            match primaries_from(tokens@, end as int) {
                Ok((rest, e2)) => {
                    assert(old_fields + (seq![field@] + rest) =~= new_fields + rest);
                },
                Err(_) => {},
            }
        }
        fields.push(field);
        i = end;
    }
    proof {
        assert(fields@.map_values(|f: PrimarySelectionField| f@) + Seq::<PrimaryFieldSpec>::empty()
            =~= fields@.map_values(|f: PrimarySelectionField| f@));
    }
    Ok((fields, i))
}

/// Where the outer attributes from `at` on end.
fn skip_attributes(tokens: &Vec<SelectionToken>, at: usize) -> (r: Result<usize, SelectionError>)
    requires
        at <= tokens.len(),
    ensures
        match r {
            Ok(a) => attrs_end(tokens@, at as int) == Ok::<int, SelectionError>(a as int) && a <= tokens.len(),
            Err(e) => attrs_end(tokens@, at as int) == Err::<int, SelectionError>(e),
        },
{
    let mut i = at;
    while i < tokens.len() && token_is_punct(&tokens[i], 35u8)
        invariant
            at <= i <= tokens.len(),
            attrs_end(tokens@, at as int) == attrs_end(tokens@, i as int),
        decreases tokens.len() - i,
    {
        let bracketed = tokens.len() - i > 1 && match &tokens[i + 1] {
            SelectionToken::Group(d, _) => *d == 91u8,
            _ => false,
        };
        if !bracketed {
            return Err(SelectionError::ExpectedAttribute);
        }
        i = i + 2;
    }
    Ok(i)
}

/// A selection declaration: its name, its primary fields, and the tokens of its
/// other fields.
#[derive(Debug)]
pub struct SelectionInput {
    pub name: Vec<u8>,
    pub primary_fields: Vec<PrimarySelectionField>,
    pub secondary_tokens: Vec<SelectionToken>,
}

impl View for SelectionInput {
    type V = SelectionSpec;

    open spec fn view(&self) -> SelectionSpec {
        SelectionSpec {
            name: self.name@,
            primary: self.primary_fields@.map_values(|f: PrimarySelectionField| f@),
            secondary: self.secondary_tokens@,
        }
    }
}

impl SelectionInput {
    /// Reads a selection declaration: outer attributes, `struct`, a name and a
    /// braced body, and nothing after it. The body starts with the primary
    /// fields; the tokens after them are kept as the secondary fields.
    pub fn parse(tokens: Vec<SelectionToken>) -> (r: Result<SelectionInput, SelectionError>)
        ensures
            match (r, selection_of(tokens@)) {
                (Ok(sel), Ok(spec)) => sel@ == spec,
                (Err(e), Err(spec_e)) => e == spec_e,
                _ => false,
            },
    {
        let ghost t = tokens@;
        let a = match skip_attributes(&tokens, 0) {
            Ok(a) => a,
            Err(e) => {
                return Err(e);
            },
        };
        let is_struct = a < tokens.len() && match &tokens[a] {
            SelectionToken::Ident(v) => is_struct_word(v),
            _ => false,
        };
        if !is_struct {
            return Err(SelectionError::ExpectedStruct);
        }
        if !(tokens.len() - a > 1 && token_is_ident(&tokens[a + 1])) {
            return Err(SelectionError::ExpectedName);
        }
        let braced = tokens.len() - a > 2 && match &tokens[a + 2] {
            SelectionToken::Group(d, _) => *d == 123u8,
            _ => false,
        };
        if !braced {
            return Err(SelectionError::ExpectedBody);
        }
        if tokens.len() - a != 3 {
            return Err(SelectionError::UnexpectedToken);
        }
        let name = ident_bytes(&tokens[a + 1]);
        let mut tokens = tokens;
        let last = tokens.pop();
        let mut body = match last {
            Some(SelectionToken::Group(_, body)) => body,
            _ => {
                return Err(SelectionError::ExpectedBody);
            },
        };
        assert(body@ == group_tokens(t[a + 2]));
        let (primary_fields, end) = match parse_primaries(&body, 0) {
            Ok(p) => p,
            Err(e) => {
                return Err(e);
            },
        };
        let secondary_tokens = body.split_off(end);
        Ok(SelectionInput { name, primary_fields, secondary_tokens })
    }

    /// The components the primary fields read, in order.
    pub fn reads(&self) -> (r: Vec<Vec<u8>>)
        ensures
            bytes_of(r@) == read_components(self@.primary),
    {
        let mut out: Vec<Vec<u8>> = Vec::new();
        let mut i: usize = 0;
        while i < self.primary_fields.len()
            invariant
                i <= self.primary_fields.len(),
                bytes_of(out@) == read_components(self@.primary.take(i as int)),
            decreases self.primary_fields.len() - i,
        {
            let ghost fields = self@.primary;
            assert(fields.take(i + 1).drop_last() =~= fields.take(i as int));
            match &self.primary_fields[i] {
                PrimarySelectionField::Read { component, .. } => {
                    let c = copy_bytes(component);
                    proof {
                        assert(bytes_of(out@.push(c)) =~= bytes_of(out@).push(c@));
                    }
                    out.push(c);
                },
                PrimarySelectionField::Write { .. } => {},
            }
            i = i + 1;
        }
        assert(self@.primary.take(i as int) =~= self@.primary);
        out
    }

    /// The components the primary fields write, in order.
    pub fn writes(&self) -> (r: Vec<Vec<u8>>)
        ensures
            bytes_of(r@) == write_components(self@.primary),
    {
        let mut out: Vec<Vec<u8>> = Vec::new();
        let mut i: usize = 0;
        while i < self.primary_fields.len()
            invariant
                i <= self.primary_fields.len(),
                bytes_of(out@) == write_components(self@.primary.take(i as int)),
            decreases self.primary_fields.len() - i,
        {
            let ghost fields = self@.primary;
            assert(fields.take(i + 1).drop_last() =~= fields.take(i as int));
            match &self.primary_fields[i] {
                PrimarySelectionField::Write { component, .. } => {
                    let c = copy_bytes(component);
                    proof {
                        assert(bytes_of(out@.push(c)) =~= bytes_of(out@).push(c@));
                    }
                    out.push(c);
                },
                PrimarySelectionField::Read { .. } => {},
            }
            i = i + 1;
        }
        assert(self@.primary.take(i as int) =~= self@.primary);
        out
    }
}

/// The bytes of `Iter`.
pub open spec fn iter_suffix() -> Seq<u8> {
    seq![73u8, 116u8, 101u8, 114u8]
}

/// The bytes of `IterItem`.
pub open spec fn iter_item_suffix() -> Seq<u8> {
    seq![73u8, 116u8, 101u8, 114u8, 73u8, 116u8, 101u8, 109u8]
}

/// `bytes` followed by `tail`.
fn append_bytes(bytes: &mut Vec<u8>, tail: &Vec<u8>)
    ensures
        final(bytes)@ == old(bytes)@ + tail@,
{
    let mut i: usize = 0;
    while i < tail.len()
        invariant
            i <= tail@.len(),
            bytes@ == old(bytes)@ + tail@.take(i as int),
        decreases tail@.len() - i,
    {
        bytes.push(tail[i]);
        assert(tail@.take(i as int + 1) =~= tail@.take(i as int).push(tail@[i as int]));
        i = i + 1;
    }
    assert(tail@.take(tail@.len() as int) =~= tail@);
}

impl PrimarySelectionField {
    /// The name the generated struct gives the field: its name after two
    /// underscores.
    pub fn private_name(&self) -> (r: Vec<u8>)
        ensures
            r@ == seq![95u8, 95u8] + self@.name,
    {
        let mut out: Vec<u8> = Vec::new();
        out.push(95u8);
        out.push(95u8);
        let name = self.name();
        append_bytes(&mut out, &name);
        assert(seq![95u8, 95u8] =~= Seq::<u8>::empty().push(95u8).push(95u8));
        out
    }
}

impl SelectionInput {
    /// The name of the iterator over the selection: its name followed by `Iter`.
    pub fn iter_name(&self) -> (r: Vec<u8>)
        ensures
            r@ == self@.name + iter_suffix(),
    {
        let mut out = copy_bytes(&self.name);
        let suffix: Vec<u8> = vec![73u8, 116u8, 101u8, 114u8];
        assert(suffix@ =~= iter_suffix());
        append_bytes(&mut out, &suffix);
        out
    }

    /// The name of the rows the iterator yields: the selection's name followed
    /// by `IterItem`.
    pub fn iter_item_name(&self) -> (r: Vec<u8>)
        ensures
            r@ == self@.name + iter_item_suffix(),
    {
        let mut out = copy_bytes(&self.name);
        let suffix: Vec<u8> = vec![73u8, 116u8, 101u8, 114u8, 73u8, 116u8, 101u8, 109u8];
        assert(suffix@ =~= iter_item_suffix());
        append_bytes(&mut out, &suffix);
        out
    }
}

/// Every primary field is read or written, never both: the components read
/// and those written number as many as the primary fields.
pub proof fn lemma_reads_writes_partition(fields: Seq<PrimaryFieldSpec>)
    ensures
        read_components(fields).len() + write_components(fields).len() == fields.len(),
    decreases fields.len(),
{
    if fields.len() > 0 {
        lemma_reads_writes_partition(fields.drop_last());
    }
}

} // verus!
