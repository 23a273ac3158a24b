//! The schema extractor: turns an annotated field declaration into a [`Shader`].
//!
//! Each field of the declaration carries zero or more tags. `group(..)` opens a
//! bind group whose visibility is given by the stage words among its arguments;
//! `texture2d(width = W, height = H)` and `uniform(size = S)` append an entry
//! to the group opened last; `vertex` and `output` declare a vertex-buffer slot
//! and a render-target slot.
use vstd::prelude::*;
use vstd::string::*;
use crate::schema::{
    Entry, EntryModel, EntryVariant, Group, GroupModel, Index, Output, Shader, Vertex, groups_view,
};
use crate::text::{
    arg_value, contains, contains_text, decimal_text, decimal_value, inner_args, is_decimal,
    lookup, pairs_view, parse_decimal, push_decimal, same_text, tag_args,
};

verus! {

/// One tag on a field: its name and the text of its arguments, parentheses
/// included (empty where the tag has none).
#[derive(Clone, Debug)]
pub struct Attribute {
    pub name: String,
    pub tokens: String,
}

/// One field of a shader declaration: its name, its type and its tags.
#[derive(Clone, Debug)]
pub struct FieldDecl {
    pub name: String,
    pub ty: String,
    pub attrs: Vec<Attribute>,
}

/// Why a declaration was rejected.
#[derive(Clone, Copy, Debug, PartialEq, Eq, Structural)]
pub enum ParseErrorKind {
    /// The tag's name is none of the known tags.
    UnknownTag,
    /// A `group` tag names neither the vertex nor the fragment stage.
    MissingStage,
    /// The tag's arguments are not a parenthesised list of `key = value` pairs.
    MalformedArguments,
    /// A required argument is absent.
    MissingArgument,
    /// A required argument is not a decimal number in range.
    InvalidNumber,
    /// A resource tag comes before any group was opened.
    OrphanEntry,
    /// A declared resource kind that has no provider (`storage`, `sampler`).
    UnsupportedKind,
}

/// A rejected declaration: the offending field and the reason.
#[derive(Clone, Debug)]
pub struct ParseError {
    pub field: String,
    pub kind: ParseErrorKind,
}

/// What a single tag declares.
#[derive(Clone, Copy, Debug, PartialEq, Eq, Structural)]
pub enum Tag {
    Group { vertex: bool, fragment: bool },
    Texture2D { width: u32, height: u32 },
    Uniform { size: u64 },
    Vertex,
    Output,
}

/// A numeric argument: absent, not a number up to `max`, or its value.
pub open spec fn number_arg(args: Seq<(Seq<char>, Seq<char>)>, key: Seq<char>, max: nat) -> Result<
    nat,
    ParseErrorKind,
> {
    match lookup(args, key) {
        None => Err(ParseErrorKind::MissingArgument),
        Some(v) => if is_decimal(v) && decimal_value(v) <= max {
            Ok(decimal_value(v))
        } else {
            Err(ParseErrorKind::InvalidNumber)
        },
    }
}

/// What the tag `name` with argument text `tokens` declares.
pub open spec fn tag_of(name: Seq<char>, tokens: Seq<char>) -> Result<Tag, ParseErrorKind> {
    if name == "group"@ {
        if contains_text(tokens, "vertex"@) || contains_text(tokens, "fragment"@) {
            Ok(
                Tag::Group {
                    vertex: contains_text(tokens, "vertex"@),
                    fragment: contains_text(tokens, "fragment"@),
                },
            )
        } else {
            Err(ParseErrorKind::MissingStage)
        }
    } else if name == "vertex"@ {
        Ok(Tag::Vertex)
    } else if name == "output"@ {
        Ok(Tag::Output)
    } else if name == "texture2d"@ {
        match tag_args(tokens) {
            None => Err(ParseErrorKind::MalformedArguments),
            Some(args) => match number_arg(args, "width"@, u32::MAX as nat) {
                Err(k) => Err(k),
                Ok(w) => match number_arg(args, "height"@, u32::MAX as nat) {
                    Err(k) => Err(k),
                    Ok(h) => Ok(Tag::Texture2D { width: w as u32, height: h as u32 }),
                },
            },
        }
    } else if name == "uniform"@ {
        match tag_args(tokens) {
            None => Err(ParseErrorKind::MalformedArguments),
            Some(args) => match number_arg(args, "size"@, u64::MAX as nat) {
                Err(k) => Err(k),
                Ok(s) => Ok(Tag::Uniform { size: s as u64 }),
            },
        }
    } else if name == "storage"@ || name == "sampler"@ {
        Err(ParseErrorKind::UnsupportedKind)
    } else {
        Err(ParseErrorKind::UnknownTag)
    }
}

/// The state of an extraction, as plain values.
pub struct ParserModel {
    pub vertex_buffers: nat,
    pub index_buffers: nat,
    pub bind_groups: Seq<GroupModel>,
    pub outputs: nat,
}

/// The name given to the group opened as the `n`th.
pub open spec fn group_ident(n: nat) -> Seq<char> {
    "group_"@ + decimal_text(n)
}

/// The state after one tag of the field `field` of type `ty`.
pub open spec fn apply_tag(m: ParserModel, t: Tag, field: Seq<char>, ty: Seq<char>) -> Result<
    ParserModel,
    ParseErrorKind,
> {
    match t {
        Tag::Group { vertex, fragment } => Ok(
            ParserModel {
                bind_groups: m.bind_groups.push(
                    GroupModel {
                        ident: group_ident(m.bind_groups.len()),
                        vertex,
                        fragment,
                        entries: Seq::empty(),
                    },
                ),
                ..m
            },
        ),
        Tag::Vertex => Ok(ParserModel { vertex_buffers: m.vertex_buffers + 1, ..m }),
        Tag::Output => Ok(ParserModel { outputs: m.outputs + 1, ..m }),
        Tag::Texture2D { width, height } => append_entry(
            m,
            EntryModel { ident: field, ty, variant: EntryVariant::Texture2D { width, height } },
        ),
        Tag::Uniform { size } => append_entry(
            m,
            EntryModel { ident: field, ty, variant: EntryVariant::Uniform { size } },
        ),
    }
}

/// The state with `e` appended to the group opened last; an orphan entry
/// where no group is open.
pub open spec fn append_entry(m: ParserModel, e: EntryModel) -> Result<ParserModel, ParseErrorKind> {
    if m.bind_groups.len() == 0 {
        Err(ParseErrorKind::OrphanEntry)
    } else {
        let last = m.bind_groups.last();
        Ok(
            ParserModel {
                bind_groups: m.bind_groups.update(
                    m.bind_groups.len() - 1,
                    GroupModel { entries: last.entries.push(e), ..last },
                ),
                ..m
            },
        )
    }
}

/// The state after the tag `name(tokens)` on the field `field` of type `ty`.
pub open spec fn step(
    m: ParserModel,
    name: Seq<char>,
    tokens: Seq<char>,
    field: Seq<char>,
    ty: Seq<char>,
) -> Result<ParserModel, ParseErrorKind> {
    match tag_of(name, tokens) {
        Err(k) => Err(k),
        Ok(t) => apply_tag(m, t, field, ty),
    }
}

/// The state after the first `n` tags of a field, stopping at the first error.
pub open spec fn steps(
    m: ParserModel,
    attrs: Seq<Attribute>,
    n: int,
    field: Seq<char>,
    ty: Seq<char>,
) -> Result<ParserModel, ParseErrorKind>
    decreases n,
{
    if n <= 0 {
        Ok(m)
    } else {
        match steps(m, attrs, n - 1, field, ty) {
            Err(k) => Err(k),
            Ok(m2) => step(m2, attrs[n - 1].name@, attrs[n - 1].tokens@, field, ty),
        }
    }
}

/// The state after all tags of the field `f`.
pub open spec fn field_step(m: ParserModel, f: FieldDecl) -> Result<ParserModel, ParseErrorKind> {
    steps(m, f.attrs@, f.attrs@.len() as int, f.name@, f.ty@)
}

/// The state after the first `n` fields, with the index of the field that
/// failed where one did.
pub open spec fn fields_step(m: ParserModel, fields: Seq<FieldDecl>, n: int) -> Result<
    ParserModel,
    (int, ParseErrorKind),
>
    decreases n,
{
    if n <= 0 {
        Ok(m)
    } else {
        match fields_step(m, fields, n - 1) {
            Err(e) => Err(e),
            Ok(m2) => match field_step(m2, fields[n - 1]) {
                Err(k) => Err((n - 1, k)),
                Ok(m3) => Ok(m3),
            },
        }
    }
}

/// The state before any field.
pub open spec fn empty_model() -> ParserModel {
    ParserModel { vertex_buffers: 0, index_buffers: 0, bind_groups: Seq::empty(), outputs: 0 }
}

/// Once a tag has failed, the later tags of the field change nothing.
proof fn lemma_steps_stop(
    m: ParserModel,
    attrs: Seq<Attribute>,
    i: int,
    n: int,
    field: Seq<char>,
    ty: Seq<char>,
)
    requires
        1 <= i <= n,
        steps(m, attrs, i, field, ty) is Err,
    ensures
        steps(m, attrs, n, field, ty) == steps(m, attrs, i, field, ty),
    decreases n - i,
{
    if i < n {
        lemma_steps_stop(m, attrs, i, n - 1, field, ty);
    }
}

/// Once a field has failed, the later fields change nothing.
proof fn lemma_fields_stop(m: ParserModel, fields: Seq<FieldDecl>, i: int, n: int)
    requires
        1 <= i <= n,
        fields_step(m, fields, i) is Err,
    ensures
        fields_step(m, fields, n) == fields_step(m, fields, i),
        fields_step(m, fields, n)->Err_0.0 < i,
        0 <= fields_step(m, fields, n)->Err_0.0,
    decreases n - i,
{
    if i < n {
        lemma_fields_stop(m, fields, i, n - 1);
    } else {
        lemma_fields_err_index(m, fields, i);
    }
}

proof fn lemma_fields_err_index(m: ParserModel, fields: Seq<FieldDecl>, n: int)
    requires
        fields_step(m, fields, n) is Err,
    ensures
        0 <= fields_step(m, fields, n)->Err_0.0 < n,
    decreases n,
{
    if n > 0 && fields_step(m, fields, n - 1) is Err {
        lemma_fields_err_index(m, fields, n - 1);
    }
}

/// Collects the schema of a declaration, field by field.
#[derive(Debug)]
pub struct ShaderParser {
    pub vertex_buffers: Vec<Vertex>,
    pub index_buffers: Vec<Index>,
    pub bind_groups: Vec<Group>,
    pub outputs: Vec<Output>,
}

impl View for ShaderParser {
    type V = ParserModel;

    open spec fn view(&self) -> ParserModel {
        ParserModel {
            vertex_buffers: self.vertex_buffers@.len(),
            index_buffers: self.index_buffers@.len(),
            bind_groups: groups_view(self.bind_groups@),
            outputs: self.outputs@.len(),
        }
    }
}

/// Reads the numeric argument `key`, at most `max`.
fn number_argument(args: &Vec<(String, String)>, key: &str, max: u64) -> (r: Result<
    u64,
    ParseErrorKind,
>)
    ensures
        r matches Ok(v) ==> number_arg(pairs_view(args@), key@, max as nat) == Ok::<
            nat,
            ParseErrorKind,
        >(v as nat),
        r matches Err(k) ==> number_arg(pairs_view(args@), key@, max as nat) == Err::<
            nat,
            ParseErrorKind,
        >(k),
{
    match arg_value(args, key) {
        None => Err(ParseErrorKind::MissingArgument),
        Some(v) => match parse_decimal(v.as_str(), max) {
            None => Err(ParseErrorKind::InvalidNumber),
            Some(n) => Ok(n),
        },
    }
}

/// Classifies the tag `name` with argument text `tokens`.
pub fn classify_tag(name: &str, tokens: &str) -> (r: Result<Tag, ParseErrorKind>)
    ensures
        r == tag_of(name@, tokens@),
{
    if same_text(name, "group") {
        let vertex = contains(tokens, "vertex");
        let fragment = contains(tokens, "fragment");
        if !vertex && !fragment {
            return Err(ParseErrorKind::MissingStage);
        }
        Ok(Tag::Group { vertex, fragment })
    } else if same_text(name, "vertex") {
        Ok(Tag::Vertex)
    } else if same_text(name, "output") {
        Ok(Tag::Output)
    } else if same_text(name, "texture2d") {
        match inner_args(tokens) {
            None => Err(ParseErrorKind::MalformedArguments),
            Some(args) => {
                let width = match number_argument(&args, "width", 0xffff_ffffu64) {
                    Err(k) => {
                        return Err(k);
                    },
                    Ok(w) => w,
                };
                let height = match number_argument(&args, "height", 0xffff_ffffu64) {
                    Err(k) => {
                        return Err(k);
                    },
                    Ok(h) => h,
                };
                Ok(Tag::Texture2D { width: width as u32, height: height as u32 })
            },
        }
    } else if same_text(name, "uniform") {
        match inner_args(tokens) {
            None => Err(ParseErrorKind::MalformedArguments),
            Some(args) => match number_argument(&args, "size", 0xffff_ffff_ffff_ffffu64) {
                Err(k) => Err(k),
                Ok(size) => Ok(Tag::Uniform { size }),
            },
        }
    } else if same_text(name, "storage") || same_text(name, "sampler") {
        Err(ParseErrorKind::UnsupportedKind)
    } else {
        Err(ParseErrorKind::UnknownTag)
    }
}

impl ShaderParser {
    /// A parser that has seen no field yet.
    pub fn new() -> (r: Self)
        ensures
            r@ == empty_model(),
    {
        let r = ShaderParser {
            vertex_buffers: Vec::new(),
            index_buffers: Vec::new(),
            bind_groups: Vec::new(),
            outputs: Vec::new(),
        };
        assert(r@.bind_groups =~= Seq::<GroupModel>::empty());
        r
    }

    /// Applies what one tag declares.
    fn apply(&mut self, t: Tag, field_name: &str, field_type: &str) -> (r: Result<(), ParseErrorKind>)
        ensures
            match apply_tag(old(self)@, t, field_name@, field_type@) {
                Ok(m) => r is Ok && final(self)@ == m,
                Err(k) => r == Err::<(), ParseErrorKind>(k) && final(self)@ == old(self)@,
            },
    {
        match t {
            Tag::Group { vertex, fragment } => {
                let mut ident = String::from_str("group_");
                push_decimal(&mut ident, self.bind_groups.len());
                let g = Group { ident, vertex, fragment, entries: Vec::new() };
                assert(g@.entries =~= Seq::<EntryModel>::empty());
                self.bind_groups.push(g);
                assert(final(self)@.bind_groups =~= old(self)@.bind_groups.push(g@));
                Ok(())
            },
            Tag::Vertex => {
                self.vertex_buffers.push(Vertex {});
                Ok(())
            },
            Tag::Output => {
                self.outputs.push(Output {});
                Ok(())
            },
            Tag::Texture2D { width, height } => self.append(
                field_name,
                field_type,
                EntryVariant::Texture2D { width, height },
            ),
            Tag::Uniform { size } => self.append(
                field_name,
                field_type,
                EntryVariant::Uniform { size },
            ),
        }
    }

    /// Appends an entry to the group opened last.
    fn append(&mut self, field_name: &str, field_type: &str, variant: EntryVariant) -> (r: Result<
        (),
        ParseErrorKind,
    >)
        ensures
            match append_entry(
                old(self)@,
                EntryModel { ident: field_name@, ty: field_type@, variant },
            ) {
                Ok(m) => r is Ok && final(self)@ == m,
                Err(k) => r == Err::<(), ParseErrorKind>(k) && final(self)@ == old(self)@,
            },
    {
        match self.bind_groups.pop() {
            None => Err(ParseErrorKind::OrphanEntry),
            Some(mut g) => {
                let ghost g0 = g;
                let e = Entry { ident: field_name.to_owned(), ty: field_type.to_owned(), variant };
                g.entries.push(e);
                assert(g@.entries =~= g0@.entries.push(e@));
                self.bind_groups.push(g);
                assert(final(self)@.bind_groups =~= old(self)@.bind_groups.update(
                    old(self)@.bind_groups.len() - 1,
                    GroupModel { entries: g0@.entries.push(e@), ..g0@ },
                ));
                Ok(())
            },
        }
    }

    /// Processes one tag of the field `field_name` of type `field_type`.
    pub fn process_field_attr(&mut self, attr: &Attribute, field_name: &str, field_type: &str) -> (r:
        Result<(), ParseError>)
        ensures
            match step(old(self)@, attr.name@, attr.tokens@, field_name@, field_type@) {
                Ok(m) => r is Ok && final(self)@ == m,
                Err(k) => r matches Err(e) && e.kind == k && e.field@ == field_name@ && final(self)@
                    == old(self)@,
            },
    {
        let res = match classify_tag(attr.name.as_str(), attr.tokens.as_str()) {
            Err(k) => Err(k),
            Ok(t) => self.apply(t, field_name, field_type),
        };
        match res {
            Ok(()) => Ok(()),
            Err(kind) => Err(ParseError { field: field_name.to_owned(), kind }),
        }
    }

    /// Processes every tag of `field` in order, stopping at the first error.
    pub fn process_field(&mut self, field: &FieldDecl) -> (r: Result<(), ParseError>)
        ensures
            match field_step(old(self)@, *field) {
                Ok(m) => r is Ok && final(self)@ == m,
                Err(k) => r matches Err(e) && e.kind == k && e.field@ == field.name@,
            },
    {
        let mut i: usize = 0;
        while i < field.attrs.len()
            invariant
                i <= field.attrs@.len(),
                steps(old(self)@, field.attrs@, i as int, field.name@, field.ty@) == Ok::<
                    ParserModel,
                    ParseErrorKind,
                >(self@),
            decreases field.attrs@.len() - i,
        {
            match self.process_field_attr(&field.attrs[i], field.name.as_str(), field.ty.as_str()) {
                Ok(()) => {},
                Err(e) => {
                    proof {
                        lemma_steps_stop(old(self)@, field.attrs@, i as int + 1, field.attrs@.len() as int, field.name@, field.ty@);
                    }
                    return Err(e);
                },
            }
            i = i + 1;
        }
        Ok(())
    }

    /// The extracted schema, with the shader source at `path`.
    pub fn finish(self, path: String) -> (r: Shader)
        ensures
            r.path == path,
            r.vertex_buffers@.len() == self@.vertex_buffers,
            r.index_buffers@.len() == self@.index_buffers,
            groups_view(r.bind_groups@) == self@.bind_groups,
            r.outputs@.len() == self@.outputs,
    {
        Shader {
            path,
            vertex_buffers: self.vertex_buffers,
            index_buffers: self.index_buffers,
            bind_groups: self.bind_groups,
            outputs: self.outputs,
        }
    }
}

/// Extracts the schema of a declaration: the fields in order, the shader
/// source at `path`. Fails, naming the field, at the first rejected tag.
pub fn parse_shader(path: String, fields: &Vec<FieldDecl>) -> (r: Result<Shader, ParseError>)
    ensures
        match fields_step(empty_model(), fields@, fields@.len() as int) {
            Ok(m) => r matches Ok(s) && s.path == path && s.vertex_buffers@.len() == m.vertex_buffers
                && s.index_buffers@.len() == m.index_buffers && groups_view(s.bind_groups@)
                == m.bind_groups && s.outputs@.len() == m.outputs,
            Err((i, k)) => 0 <= i < fields@.len() && (r matches Err(e) && e.kind == k && e.field@ == fields@[i].name@),
        },
{
    let mut parser = ShaderParser::new();
    let mut i: usize = 0;
    while i < fields.len()
        invariant
            i <= fields@.len(),
            fields_step(empty_model(), fields@, i as int) == Ok::<
                ParserModel,
                (int, ParseErrorKind),
            >(parser@),
        decreases fields@.len() - i,
    {
        match parser.process_field(&fields[i]) {
            Ok(()) => {},
            Err(e) => {
                proof {
                    lemma_fields_stop(empty_model(), fields@, i as int + 1, fields@.len() as int);
                }
                return Err(e);
            },
        }
        i = i + 1;
    }
    Ok(parser.finish(path))
}

/// A group's visibility is the union of the stages named in its `group`
/// tag: opening the group sets vertex and fragment visibility from the stage
/// words present (a tag naming neither is rejected), and appending entries to
/// it leaves the visibility as is.
pub proof fn lemma_group_visibility(m: ParserModel, tokens: Seq<char>, field: Seq<char>, ty: Seq<char>)
    ensures
        step(m, "group"@, tokens, field, ty) is Ok <==> (contains_text(tokens, "vertex"@)
            || contains_text(tokens, "fragment"@)),
        step(m, "group"@, tokens, field, ty) is Err ==> step(m, "group"@, tokens, field, ty)
            == Err::<ParserModel, ParseErrorKind>(ParseErrorKind::MissingStage),
        step(m, "group"@, tokens, field, ty) is Ok ==> ({
            let m1 = step(m, "group"@, tokens, field, ty)->Ok_0;
            let g = m1.bind_groups.last();
            &&& m1.bind_groups.len() == m.bind_groups.len() + 1
            &&& g.vertex == contains_text(tokens, "vertex"@)
            &&& g.fragment == contains_text(tokens, "fragment"@)
            &&& g.entries.len() == 0
        }),
{
}

/// Binding indices follow declaration order: an entry appended to the group
/// opened last takes the next position in it (the binding index that its
/// layout entry gets), keeps the group's visibility and changes no other
/// group or slot count.
pub proof fn lemma_entry_position(m: ParserModel, e: EntryModel)
    requires
        append_entry(m, e) is Ok,
    ensures
        ({
            let m1 = append_entry(m, e)->Ok_0;
            let n = m.bind_groups.len() - 1;
            let g0 = m.bind_groups[n];
            let g1 = m1.bind_groups[n];
            &&& m1.bind_groups.len() == m.bind_groups.len()
            &&& g1.entries.len() == g0.entries.len() + 1
            &&& g1.entries[g0.entries.len() as int] == e
            &&& g1.entries.subrange(0, g0.entries.len() as int) == g0.entries
            &&& g1.vertex == g0.vertex && g1.fragment == g0.fragment && g1.ident == g0.ident
            &&& forall|i: int| 0 <= i < n ==> #[trigger] m1.bind_groups[i] == m.bind_groups[i]
            &&& m1.vertex_buffers == m.vertex_buffers && m1.index_buffers == m.index_buffers
            &&& m1.outputs == m.outputs
        }),
{
    let m1 = append_entry(m, e)->Ok_0;
    let n = m.bind_groups.len() - 1;
    assert(m1.bind_groups[n].entries.subrange(0, m.bind_groups[n].entries.len() as int)
        =~= m.bind_groups[n].entries);
}

} // verus!
