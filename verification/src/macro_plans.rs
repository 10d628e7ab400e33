//! The decisions behind the crate's procedural macros, on plain values:
//! what a derived greeting says, which getters and setters are generated,
//! which fields an attribute leaves private, and the grammar of the
//! `resource` DSL. The caller reads the token streams and writes the
//! generated code.

use vstd::prelude::*;
use crate::python_sim::{all_digits, digits_value, is_digit};
use crate::text::{chars_of, decimal, push_decimal, push_str};

verus! {

fn same_text(a: &str, b: &str) -> (r: bool)
    ensures
        r == (a@ == b@),
{
    let x = a.to_owned();
    let y = b.to_owned();
    x == y
}

// ------------------------------------------------------------------
// Greet, getters
// ------------------------------------------------------------------

/// `Hello from NAME!`, what the derived `greet` returns.
pub fn greeting(type_ident: &str) -> (s: String)
    ensures
        s@ == "Hello from "@ + type_ident@ + "!"@,
{
    let mut s = String::new();
    push_str(&mut s, "Hello from ");
    push_str(&mut s, type_ident);
    push_str(&mut s, "!");
    s
}

/// `get_FIELD`, the name of the getter generated for a field.
pub fn getter_name(field: &str) -> (s: String)
    ensures
        s@ == "get_"@ + field@,
{
    let mut s = String::new();
    push_str(&mut s, "get_");
    push_str(&mut s, field);
    s
}

// ------------------------------------------------------------------
// Fields left private by `#[public(exclude(..))]`
// ------------------------------------------------------------------

/// The arguments of the `public` attribute, as read from its tokens.
pub enum AttrArgs {
    /// No arguments.
    Empty,
    /// A list `PATH(..)`; `idents` holds the comma-separated identifiers
    /// inside, or nothing when the contents are not such a list.
    List { path: String, idents: Option<Vec<String>> },
    /// Anything that is not a list.
    NotList,
}

/// The views of a list of names.
pub open spec fn names_view(v: Seq<String>) -> Seq<Seq<char>> {
    v.map_values(|s: String| s@)
}

/// The fields that keep their own visibility: the identifiers of an
/// `exclude(..)` list, none otherwise.
pub open spec fn excluded_spec(args: AttrArgs) -> Seq<Seq<char>> {
    match args {
        AttrArgs::List { path, idents } => if path@ == "exclude"@ {
            match idents {
                Some(ids) => names_view(ids@),
                None => Seq::empty(),
            }
        } else {
            Seq::empty()
        },
        _ => Seq::empty(),
    }
}

fn copy_names(v: &Vec<String>) -> (r: Vec<String>)
    ensures
        names_view(r@) == names_view(v@),
{
    let mut r: Vec<String> = Vec::new();
    let mut i: usize = 0;
    while i < v.len()
        invariant
            i <= v.len(),
            names_view(r@) == names_view(v@).take(i as int),
        decreases v.len() - i,
    {
        let s = v[i].clone();
        let ghost prev = r@;
        r.push(s);
        assert(names_view(r@) =~= names_view(prev).push(v@[i as int]@));
        assert(names_view(r@) =~= names_view(v@).take(i + 1));
        i = i + 1;
    }
    assert(names_view(v@).take(v.len() as int) =~= names_view(v@));
    r
}

/// The excluded field names. An `exclude(..)` whose contents are not
/// identifiers is refused by the macro, so it is not an input here.
pub fn excluded_fields(args: &AttrArgs) -> (r: Vec<String>)
    requires
        args matches AttrArgs::List { path, idents } ==> (path@ == "exclude"@ ==> idents is Some),
    ensures
        names_view(r@) == excluded_spec(*args),
{
    match args {
        AttrArgs::List { path, idents } => {
            if same_text(path.as_str(), "exclude") {
                match idents {
                    Some(ids) => copy_names(ids),
                    None => {
                        let r: Vec<String> = Vec::new();
                        assert(names_view(r@) =~= Seq::<Seq<char>>::empty());
                        r
                    },
                }
            } else {
                let r: Vec<String> = Vec::new();
                assert(names_view(r@) =~= Seq::<Seq<char>>::empty());
                r
            }
        },
        _ => {
            let r: Vec<String> = Vec::new();
            assert(names_view(r@) =~= Seq::<Seq<char>>::empty());
            r
        },
    }
}

/// `exclude(a, b, ..)` excludes exactly the listed identifiers, each one,
/// in the order given; a list under any other name, or no list, excludes
/// nothing.
pub proof fn law_exclude_lists_every_field(path: String, ids: Vec<String>, name: Seq<char>)
    ensures
        path@ == "exclude"@ ==> excluded_spec(AttrArgs::List { path, idents: Some(ids) }).len() == ids@.len(),
        path@ == "exclude"@ ==> forall|i: int|
            0 <= i < ids@.len() ==> #[trigger] excluded_spec(AttrArgs::List { path, idents: Some(ids) })[i]
                == ids@[i]@,
        path@ == "exclude"@ ==> (excluded_spec(AttrArgs::List { path, idents: Some(ids) }).contains(name) <==> exists|i: int|
            0 <= i < ids@.len() && #[trigger] ids@[i]@ == name),
        path@ != "exclude"@ ==> excluded_spec(AttrArgs::List { path, idents: Some(ids) }).len() == 0,
        excluded_spec(AttrArgs::Empty).len() == 0,
        excluded_spec(AttrArgs::NotList).len() == 0,
{
    if path@ == "exclude"@ {
        let e = excluded_spec(AttrArgs::List { path, idents: Some(ids) });
        if e.contains(name) {
            let i = choose|i: int| 0 <= i < e.len() && e[i] == name;
            assert(ids@[i]@ == name);
        }
        if exists|i: int| 0 <= i < ids@.len() && #[trigger] ids@[i]@ == name {
            let i = choose|i: int| 0 <= i < ids@.len() && #[trigger] ids@[i]@ == name;
            assert(e[i] == name);
        }
    }
}

/// A named field keeps its own visibility when it is excluded; every
/// other field becomes public.
pub fn keeps_visibility(excluded: &Vec<String>, field: &Option<String>) -> (b: bool)
    ensures
        b == (field matches Some(f) && names_view(excluded@).contains(f@)),
{
    match field {
        None => false,
        Some(f) => {
            let mut i: usize = 0;
            while i < excluded.len()
                invariant
                    i <= excluded.len(),
                    *field == Some(*f),
                    forall|k: int| 0 <= k < i ==> #[trigger] names_view(excluded@)[k] != f@,
                decreases excluded.len() - i,
            {
                assert(names_view(excluded@)[i as int] == excluded@[i as int]@);
                if excluded[i] == *f {
                    assert(names_view(excluded@)[i as int] == f@);
                    return true;
                }
                i = i + 1;
            }
            false
        },
    }
}

// ------------------------------------------------------------------
// Derived builders
// ------------------------------------------------------------------

/// A field of the struct a builder is derived for, with the setter name
/// given by `#[rename("..")]`, if any.
pub struct FieldSpec {
    pub name: String,
    pub rename: Option<String>,
}

/// How `build` fills a field that was not set.
pub enum FieldInit {
    /// With the type's default value.
    Default,
    /// It panics with this message.
    Required(String),
}

/// What the builder derive generates for a struct.
pub struct BuilderPlan {
    /// `NAMEBuilder`.
    pub builder_name: String,
    /// For each field: the setter's name and the field it sets.
    pub setters: Vec<(String, String)>,
    /// For each field: its name and how an unset value is filled.
    pub inits: Vec<(String, FieldInit)>,
}

/// The setter name for a field: the rename when given, else the field name.
pub open spec fn setter_name(f: FieldSpec) -> Seq<char> {
    match f.rename {
        Some(r) => r@,
        None => f.name@,
    }
}

/// `field not set: FIELD`.
pub open spec fn not_set(field: Seq<char>) -> Seq<char> {
    "field not set: "@ + field
}

pub fn builder_plan(name: &str, fields: &Vec<FieldSpec>, defaults: bool) -> (p: BuilderPlan)
    ensures
        p.builder_name@ == name@ + "Builder"@,
        p.setters@.len() == fields@.len(),
        p.inits@.len() == fields@.len(),
        forall|i: int| 0 <= i < fields@.len() ==> (#[trigger] p.setters@[i]).0@ == setter_name(fields@[i])
            && p.setters@[i].1@ == fields@[i].name@,
        forall|i: int| 0 <= i < fields@.len() ==> (#[trigger] p.inits@[i]).0@ == fields@[i].name@ && if defaults {
            p.inits@[i].1 is Default
        } else {
            p.inits@[i].1 matches FieldInit::Required(m) && m@ == not_set(fields@[i].name@)
        },
{
    let mut builder_name = String::new();
    push_str(&mut builder_name, name);
    push_str(&mut builder_name, "Builder");
    let mut setters: Vec<(String, String)> = Vec::new();
    let mut inits: Vec<(String, FieldInit)> = Vec::new();
    let mut i: usize = 0;
    while i < fields.len()
        invariant
            i <= fields.len(),
            setters@.len() == i,
            inits@.len() == i,
            forall|k: int| 0 <= k < i ==> (#[trigger] setters@[k]).0@ == setter_name(fields@[k]) && setters@[k].1@
                == fields@[k].name@,
            forall|k: int| 0 <= k < i ==> (#[trigger] inits@[k]).0@ == fields@[k].name@ && if defaults {
                inits@[k].1 is Default
            } else {
                inits@[k].1 matches FieldInit::Required(m) && m@ == not_set(fields@[k].name@)
            },
        decreases fields.len() - i,
    {
        let f = &fields[i];
        let method = match &f.rename {
            Some(r) => r.clone(),
            None => f.name.clone(),
        };
        setters.push((method, f.name.clone()));
        let init = if defaults {
            FieldInit::Default
        } else {
            let mut m = String::new();
            push_str(&mut m, "field not set: ");
            push_str(&mut m, f.name.as_str());
            FieldInit::Required(m)
        };
        inits.push((f.name.clone(), init));
        i = i + 1;
    }
    BuilderPlan { builder_name, setters, inits }
}

// ------------------------------------------------------------------
// The resource DSL: resource NAME (name "TEXT" | count INT)*
// ------------------------------------------------------------------

/// A token of the DSL's input.
pub enum DslToken {
    /// An identifier that is not a Rust keyword.
    Ident(String),
    /// A string literal, by its value.
    Str(String),
    /// An integer literal, by its decimal digits.
    Int(String),
    /// Anything else.
    Other,
}

/// Why the DSL input was refused.
#[derive(PartialEq, Eq, Structural, Debug)]
pub enum ResourceError {
    /// The input does not start with `resource`.
    ExpectedResource,
    /// `resource` is not followed by an identifier.
    ExpectedIdent,
    /// `name` is not followed by a string literal.
    ExpectedString,
    /// `count` is not followed by an integer literal.
    ExpectedInteger,
    /// The count does not fit in `u32`.
    CountOutOfRange,
    /// A token where `name` or `count` belongs.
    ExpectedKey,
}

/// A parsed resource declaration.
pub struct ResourceSpec {
    pub struct_name: String,
    pub name: String,
    pub count: u32,
}

/// The value of a nonempty string of decimal digits, when it fits in
/// `u32`.
pub open spec fn digits_u32(s: Seq<char>) -> Option<u32> {
    if s.len() > 0 && all_digits(s) && digits_value(s) <= u32::MAX {
        Some(digits_value(s) as u32)
    } else {
        None
    }
}

proof fn lemma_digits_value_nonneg(s: Seq<char>)
    requires
        all_digits(s),
    ensures
        digits_value(s) >= 0,
    decreases s.len(),
{
    if s.len() > 0 {
        assert(all_digits(s.drop_last())) by {
            assert forall|i: int| 0 <= i < s.drop_last().len() implies is_digit(#[trigger] s.drop_last()[i]) by {
                assert(s.drop_last()[i] == s[i]);
            }
        }
        lemma_digits_value_nonneg(s.drop_last());
        assert(is_digit(s[s.len() - 1]));
    }
}

proof fn lemma_digits_prefix_bound(s: Seq<char>, k: int)
    requires
        all_digits(s),
        0 <= k <= s.len(),
    ensures
        digits_value(s.take(k)) <= digits_value(s),
    decreases s.len(),
{
    if k < s.len() {
        assert(all_digits(s.drop_last())) by {
            assert forall|i: int| 0 <= i < s.drop_last().len() implies is_digit(#[trigger] s.drop_last()[i]) by {
                assert(s.drop_last()[i] == s[i]);
            }
        }
        assert(s.drop_last().take(k) =~= s.take(k));
        lemma_digits_prefix_bound(s.drop_last(), k);
        lemma_digits_value_nonneg(s.drop_last());
        assert(is_digit(s[s.len() - 1]));
    } else {
        assert(s.take(k) =~= s);
    }
}

/// The value of a string of decimal digits, `None` when it has another
/// character, is empty or exceeds `u32::MAX`.
pub fn digits_to_u32(s: &str) -> (r: Option<u32>)
    ensures
        r == digits_u32(s@),
{
    let cs = chars_of(s);
    if cs.len() == 0 {
        return None;
    }
    let mut v: u64 = 0;
    let mut i: usize = 0;
    assert(s@.take(0) =~= Seq::<char>::empty());
    while i < cs.len()
        invariant
            cs@ == s@,
            i <= cs.len(),
            forall|k: int| 0 <= k < i ==> is_digit(#[trigger] cs@[k]),
            v == digits_value(s@.take(i as int)),
            v <= u32::MAX,
        decreases cs.len() - i,
    {
        let c = cs[i];
        if !('0' <= c && c <= '9') {
            assert(!is_digit(s@[i as int]));
            return None;
        }
        let d = (c as u32 - 48) as u64;
        assert(s@.take(i + 1).drop_last() =~= s@.take(i as int));
        assert(s@.take(i + 1).last() == c);
        v = v * 10 + d;
        if v > 4294967295 {
            proof {
                if all_digits(s@) {
                    lemma_digits_prefix_bound(s@, i + 1);
                }
            }
            return None;
        }
        i = i + 1;
    }
    assert(s@.take(cs.len() as int) =~= s@);
    Some(v as u32)
}

/// The token's identifier, if it is one.
pub open spec fn ident_of(t: DslToken) -> Option<Seq<char>> {
    match t {
        DslToken::Ident(s) => Some(s@),
        _ => None,
    }
}

/// The `name` and `count` settings read from `toks[i..]`, starting from
/// the given values: each `name "TEXT"` or `count INT` replaces the value
/// before it.
pub open spec fn settings_from(toks: Seq<DslToken>, i: int, name: Seq<char>, count: u32) -> Result<
    (Seq<char>, u32),
    ResourceError,
>
    decreases toks.len() - i,
{
    if i < 0 || i >= toks.len() {
        Ok((name, count))
    } else if ident_of(toks[i]) == Some("name"@) {
        if i + 1 < toks.len() && toks[i + 1] is Str {
            settings_from(toks, i + 2, toks[i + 1]->Str_0@, count)
        } else {
            Err(ResourceError::ExpectedString)
        }
    } else if ident_of(toks[i]) == Some("count"@) {
        if i + 1 < toks.len() && toks[i + 1] is Int {
            match digits_u32(toks[i + 1]->Int_0@) {
                Some(c) => settings_from(toks, i + 2, name, c),
                None => Err(ResourceError::CountOutOfRange),
            }
        } else {
            Err(ResourceError::ExpectedInteger)
        }
    } else {
        Err(ResourceError::ExpectedKey)
    }
}

/// What parsing the DSL gives: the struct name, then the settings, with
/// an empty name and a count of 0 where none is given.
pub open spec fn parse_resource_spec(toks: Seq<DslToken>) -> Result<(Seq<char>, Seq<char>, u32), ResourceError> {
    if toks.len() == 0 || ident_of(toks[0]) != Some("resource"@) {
        Err(ResourceError::ExpectedResource)
    } else if toks.len() < 2 || !(toks[1] is Ident) {
        Err(ResourceError::ExpectedIdent)
    } else {
        match settings_from(toks, 2, Seq::empty(), 0) {
            Ok((name, count)) => Ok((toks[1]->Ident_0@, name, count)),
            Err(e) => Err(e),
        }
    }
}

proof fn lemma_settings_append(toks: Seq<DslToken>, extra: Seq<DslToken>, i: int, name: Seq<char>, count: u32)
    requires
        0 <= i <= toks.len(),
        settings_from(toks, i, name, count) is Ok,
    ensures
        settings_from(toks + extra, i, name, count) == settings_from(
            toks + extra,
            toks.len() as int,
            settings_from(toks, i, name, count)->Ok_0.0,
            settings_from(toks, i, name, count)->Ok_0.1,
        ),
    decreases toks.len() - i,
{
    let all = toks + extra;
    if i < toks.len() {
        assert(all[i] == toks[i]);
        if ident_of(toks[i]) == Some("name"@) {
            assert(all[i + 1] == toks[i + 1]);
            lemma_settings_append(toks, extra, i + 2, toks[i + 1]->Str_0@, count);
        } else {
            assert(all[i + 1] == toks[i + 1]);
            let c = digits_u32(toks[i + 1]->Int_0@)->Some_0;
            lemma_settings_append(toks, extra, i + 2, name, c);
        }
    }
}

/// `name` may be given again after the declaration: the last one wins and
/// the count stays.
pub proof fn law_resource_last_name_wins(toks: Seq<DslToken>, key: String, value: String)
    requires
        parse_resource_spec(toks) is Ok,
        key@ == "name"@,
    ensures
        parse_resource_spec(toks + seq![DslToken::Ident(key), DslToken::Str(value)]) == Ok::<
            (Seq<char>, Seq<char>, u32),
            ResourceError,
        >((parse_resource_spec(toks)->Ok_0.0, value@, parse_resource_spec(toks)->Ok_0.2)),
{
    let extra = seq![DslToken::Ident(key), DslToken::Str(value)];
    let all = toks + extra;
    lemma_settings_append(toks, extra, 2, Seq::empty(), 0);
    let r = settings_from(toks, 2, Seq::empty(), 0)->Ok_0;
    assert(all[toks.len() as int] == extra[0]);
    assert(all[toks.len() as int + 1] == extra[1]);
    assert(all[0] == toks[0] && all[1] == toks[1]);
    assert(settings_from(all, toks.len() as int + 2, value@, r.1) == Ok::<(Seq<char>, u32), ResourceError>((value@, r.1)));
}

/// `count` may be given again after the declaration: the last one wins and
/// the name stays.
pub proof fn law_resource_last_count_wins(toks: Seq<DslToken>, key: String, digits: String, n: u32)
    requires
        parse_resource_spec(toks) is Ok,
        key@ == "count"@,
        digits_u32(digits@) == Some(n),
    ensures
        parse_resource_spec(toks + seq![DslToken::Ident(key), DslToken::Int(digits)]) == Ok::<
            (Seq<char>, Seq<char>, u32),
            ResourceError,
        >((parse_resource_spec(toks)->Ok_0.0, parse_resource_spec(toks)->Ok_0.1, n)),
{
    let extra = seq![DslToken::Ident(key), DslToken::Int(digits)];
    let all = toks + extra;
    lemma_settings_append(toks, extra, 2, Seq::empty(), 0);
    let r = settings_from(toks, 2, Seq::empty(), 0)->Ok_0;
    assert(all[toks.len() as int] == extra[0]);
    assert(all[toks.len() as int + 1] == extra[1]);
    assert(all[0] == toks[0] && all[1] == toks[1]);
    assert("count"@ != "name"@) by {
        reveal_strlit("count");
        reveal_strlit("name");
        assert("count"@[0] != "name"@[0]);
    }
    assert(settings_from(all, toks.len() as int + 2, r.0, n) == Ok::<(Seq<char>, u32), ResourceError>((r.0, n)));
}

fn is_ident(t: &DslToken, word: &str) -> (b: bool)
    ensures
        b == (ident_of(*t) == Some(word@)),
{
    match t {
        DslToken::Ident(s) => same_text(s.as_str(), word),
        _ => false,
    }
}

/// Parses the tokens of a `resource!` invocation.
pub fn parse_resource(toks: &Vec<DslToken>) -> (r: Result<ResourceSpec, ResourceError>)
    ensures
        match r {
            Ok(spec) => parse_resource_spec(toks@) == Ok::<(Seq<char>, Seq<char>, u32), ResourceError>(
                (spec.struct_name@, spec.name@, spec.count),
            ),
            Err(e) => parse_resource_spec(toks@) == Err::<(Seq<char>, Seq<char>, u32), ResourceError>(e),
        },
{
    if toks.len() == 0 || !is_ident(&toks[0], "resource") {
        return Err(ResourceError::ExpectedResource);
    }
    let struct_name = if toks.len() >= 2 {
        match &toks[1] {
            DslToken::Ident(s) => s.clone(),
            _ => return Err(ResourceError::ExpectedIdent),
        }
    } else {
        return Err(ResourceError::ExpectedIdent);
    };
    let mut name = String::new();
    let mut count: u32 = 0;
    let mut i: usize = 2;
    assert(name@ =~= Seq::<char>::empty());
    while i < toks.len()
        invariant
            2 <= i,
            toks@.len() >= 2,
            ident_of(toks@[0]) == Some("resource"@),
            toks@[1] is Ident,
            struct_name@ == toks@[1]->Ident_0@,
            settings_from(toks@, 2, Seq::empty(), 0) == settings_from(toks@, i as int, name@, count),
        decreases toks.len() - i,
    {
        if is_ident(&toks[i], "name") {
            if i + 1 < toks.len() {
                match &toks[i + 1] {
                    DslToken::Str(v) => {
                        name = v.clone();
                    },
                    _ => return Err(ResourceError::ExpectedString),
                }
            } else {
                return Err(ResourceError::ExpectedString);
            }
        } else if is_ident(&toks[i], "count") {
            if i + 1 < toks.len() {
                match &toks[i + 1] {
                    DslToken::Int(digits) => {
                        match digits_to_u32(digits.as_str()) {
                            Some(c) => {
                                count = c;
                            },
                            None => return Err(ResourceError::CountOutOfRange),
                        }
                    },
                    _ => return Err(ResourceError::ExpectedInteger),
                }
            } else {
                return Err(ResourceError::ExpectedInteger);
            }
        } else {
            return Err(ResourceError::ExpectedKey);
        }
        i = i + 2;
    }
    Ok(ResourceSpec { struct_name, name, count })
}

impl ResourceSpec {
    /// `STRUCT: NAME (count: N)`, what the generated `description` returns.
    pub fn description(&self) -> (s: String)
        ensures
            s@ == self.struct_name@ + ": "@ + self.name@ + " (count: "@ + decimal(self.count as nat) + ")"@,
    {
        let mut s = String::new();
        push_str(&mut s, self.struct_name.as_str());
        push_str(&mut s, ": ");
        push_str(&mut s, self.name.as_str());
        push_str(&mut s, " (count: ");
        push_decimal(&mut s, self.count as u64);
        push_str(&mut s, ")");
        s
    }
}

} // verus!
