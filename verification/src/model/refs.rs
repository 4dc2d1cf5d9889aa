//! Identifiers, object names, references between Dawn objects and asset paths.
use vstd::prelude::*;
use crate::text::{
    chars_of, concat, concat3, is_ident_char, is_ident_start, leading_whitespace,
    leading_whitespace_exec, spec_is_ident_char, spec_is_ident_start,
};

verus! {

/// Why `value` is not an identifier (`[A-Za-z_][A-Za-z0-9_]*`), as the suffix
/// of the message that follows its label; `None` when it is one.
pub open spec fn identifier_problem(value: Seq<char>) -> Option<Seq<char>> {
    if value.len() == 0 {
        Some(" cannot be empty"@)
    } else if !spec_is_ident_start(value[0]) {
        Some(" must start with a letter or underscore"@)
    } else if exists|i: int| 1 <= i < value.len() && !spec_is_ident_char(#[trigger] value[i]) {
        Some(" may only contain letters, numbers, and underscores"@)
    } else {
        None
    }
}

/// `value` is an identifier.
pub open spec fn is_identifier(value: Seq<char>) -> bool {
    identifier_problem(value).is_none()
}

/// Checks that `value` is an identifier; the error names it by `label`.
pub fn validate_identifier(value: &str, label: &str) -> (r: Result<(), String>)
    ensures
        r is Ok <==> identifier_problem(value@).is_none(),
        r matches Err(m) ==> m@ == label@ + identifier_problem(value@).unwrap(),
{
    let chars = chars_of(value);
    if chars.len() == 0 {
        return Err(concat(label, " cannot be empty"));
    }
    if !is_ident_start(chars[0]) {
        return Err(concat(label, " must start with a letter or underscore"));
    }
    let i = first_non_ident_char(&chars, 1);
    if i < chars.len() {
        assert(!spec_is_ident_char(value@[i as int]));
        return Err(concat(label, " may only contain letters, numbers, and underscores"));
    }
    Ok(())
}

/// Index of the first character at or after `start` that may not continue an
/// identifier, or the length when there is none.
fn first_non_ident_char(chars: &Vec<char>, start: usize) -> (i: usize)
    requires
        start <= chars@.len(),
    ensures
        start <= i <= chars@.len(),
        forall|j: int| start <= j < i ==> spec_is_ident_char(#[trigger] chars@[j]),
        i < chars@.len() ==> !spec_is_ident_char(chars@[i as int]),
{
    let mut i = start;
    while i < chars.len() && is_ident_char(chars[i])
        invariant
            start <= i <= chars@.len(),
            forall|j: int| start <= j < i ==> spec_is_ident_char(#[trigger] chars@[j]),
        decreases chars@.len() - i,
    {
        i += 1;
    }
    i
}

/// The name of an object exported by a Dawn file.
#[derive(Debug, Clone, PartialEq, Eq, Hash)]
pub struct ObjectName(String);

impl ObjectName {
    pub closed spec fn spec_text(&self) -> Seq<char> {
        self.0@
    }

    pub fn new(value: String) -> (n: Self)
        ensures
            n.spec_text() == value@,
    {
        Self(value)
    }

    pub fn as_str(&self) -> (s: &str)
        ensures
            s@ == self.spec_text(),
    {
        self.0.as_str()
    }
}

/// A reference to an object: `name`, or `alias.name` for an object of an
/// imported file.
#[derive(Debug, Clone, PartialEq, Eq, Hash)]
pub struct SymbolRef {
    raw: String,
    alias: Option<String>,
    name: ObjectName,
}

/// Index of the first `.` in `s`, or `s.len()`.
pub open spec fn first_dot(s: Seq<char>) -> int {
    crate::model::time::first_index_of(s, '.', 0)
}

/// What a reference text resolves to: its alias (when it has one) and its name,
/// or the message of its refusal.
pub open spec fn spec_parse_symbol_ref(raw: Seq<char>) -> Result<(Option<Seq<char>>, Seq<char>), Seq<char>> {
    let k = first_dot(raw);
    if k < raw.len() {
        let alias = raw.subrange(0, k);
        let name = raw.subrange(k + 1, raw.len() as int);
        if !is_identifier(alias) {
            Err("reference alias"@ + identifier_problem(alias).unwrap())
        } else if !is_identifier(name) {
            Err("reference name"@ + identifier_problem(name).unwrap())
        } else {
            Ok((Some(alias), name))
        }
    } else if !is_identifier(raw) {
        Err("reference name"@ + identifier_problem(raw).unwrap())
    } else {
        Ok((None, raw))
    }
}

impl SymbolRef {
    pub closed spec fn spec_raw(&self) -> Seq<char> {
        self.raw@
    }

    pub closed spec fn spec_alias(&self) -> Option<Seq<char>> {
        match self.alias {
            Some(a) => Some(a@),
            None => None,
        }
    }

    pub closed spec fn spec_name(&self) -> Seq<char> {
        self.name.spec_text()
    }

    /// Reads a reference text `name` or `alias.name`.
    pub fn new(raw: &str) -> (r: Result<Self, String>)
        ensures
            r matches Ok(s) ==> s.spec_raw() == raw@ && spec_parse_symbol_ref(raw@) == Ok::<
                (Option<Seq<char>>, Seq<char>),
                Seq<char>,
            >((s.spec_alias(), s.spec_name())),
            r matches Err(m) ==> spec_parse_symbol_ref(raw@) == Err::<
                (Option<Seq<char>>, Seq<char>),
                Seq<char>,
            >(m@),
    {
        let chars = chars_of(raw);
        let n = chars.len();
        let mut k: usize = 0;
        while k < n && chars[k] != '.'
            invariant
                n == chars@.len(),
                chars@ == raw@,
                k <= n,
                first_dot(raw@) == crate::model::time::first_index_of(raw@, '.', k as int),
            decreases n - k,
        {
            k += 1;
        }
        if k < n {
            let alias = crate::text::string_from_chars(&chars.as_slice()[0..k]);
            let name = crate::text::string_from_chars(&chars.as_slice()[k + 1..n]);
            proof {
                assert(alias@ =~= raw@.subrange(0, k as int));
                assert(name@ =~= raw@.subrange(k + 1, n as int));
            }
            match validate_identifier(alias.as_str(), "reference alias") {
                Err(m) => {
                    return Err(m);
                },
                Ok(()) => {},
            }
            match validate_identifier(name.as_str(), "reference name") {
                Err(m) => {
                    return Err(m);
                },
                Ok(()) => {},
            }
            Ok(Self { raw: String::from_str(raw), alias: Some(alias), name: ObjectName(name) })
        } else {
            match validate_identifier(raw, "reference name") {
                Err(m) => {
                    return Err(m);
                },
                Ok(()) => {},
            }
            Ok(Self { raw: String::from_str(raw), alias: None, name: ObjectName(String::from_str(raw)) })
        }
    }

    pub fn raw(&self) -> (s: &str)
        ensures
            s@ == self.spec_raw(),
    {
        self.raw.as_str()
    }

    pub fn alias(&self) -> (a: Option<&str>)
        ensures
            a matches Some(s) ==> self.spec_alias() == Some(s@),
            a is None <==> self.spec_alias() is None,
    {
        match &self.alias {
            Some(a) => Some(a.as_str()),
            None => None,
        }
    }

    pub fn name(&self) -> (n: &ObjectName)
        ensures
            n.spec_text() == self.spec_name(),
    {
        &self.name
    }
}

/// A path to an asset file (such as audio), as written in a Dawn file.
#[derive(Debug, Clone, PartialEq, Eq)]
pub struct AssetPath {
    raw: String,
    path: String,
}

/// `s` holds only whitespace.
pub open spec fn is_blank(s: Seq<char>) -> bool {
    leading_whitespace(s) == s.len()
}

impl AssetPath {
    pub closed spec fn spec_raw(&self) -> Seq<char> {
        self.raw@
    }

    pub closed spec fn spec_path(&self) -> Seq<char> {
        self.path@
    }

    /// Reads an asset path; a blank one is refused.
    pub fn new(raw: &str) -> (r: Result<Self, String>)
        ensures
            r is Err <==> is_blank(raw@),
            r matches Err(m) ==> m@ == "asset path must not be empty"@,
            r matches Ok(p) ==> p.spec_raw() == raw@ && p.spec_path() == raw@,
    {
        let chars = chars_of(raw);
        let lead = leading_whitespace_exec(&chars, 0, chars.len());
        assert(chars@.subrange(0, chars@.len() as int) =~= raw@);
        if lead == chars.len() {
            return Err(String::from_str("asset path must not be empty"));
        }
        Ok(Self { raw: String::from_str(raw), path: String::from_str(raw) })
    }

    pub fn raw(&self) -> (s: &str)
        ensures
            s@ == self.spec_raw(),
    {
        self.raw.as_str()
    }

    pub fn path(&self) -> (s: &str)
        ensures
            s@ == self.spec_path(),
    {
        self.path.as_str()
    }
}

/// The key under which a resolved definition is stored: the file it comes from
/// and its name there.
#[derive(Debug, Clone, PartialEq, Eq, Hash)]
pub struct DefinitionKey {
    pub path: String,
    pub name: String,
}

impl DefinitionKey {
    pub fn new(path: String, name: String) -> (k: Self)
        ensures
            k.path@ == path@,
            k.name@ == name@,
    {
        Self { path, name }
    }

    /// `path#name`.
    pub fn display_key(&self) -> (s: String)
        ensures
            s@ == self.path@ + "#"@ + self.name@,
    {
        concat3(self.path.as_str(), "#", self.name.as_str())
    }
}

/// A resolved reference: the key it resolved to and the reference as written.
#[derive(Debug, Clone)]
pub struct ResolvedSymbolRef<K> {
    pub key: K,
    pub reference: SymbolRef,
}

/// Either an object written in place or a reference to one.
#[derive(Debug, Clone)]
pub enum InlineOrRef<T> {
    Ref(SymbolRef),
    Inline(T),
}

impl<T> InlineOrRef<T> {
    pub fn symbol_ref(&self) -> (r: Option<&SymbolRef>)
        ensures
            r matches Some(s) ==> *self == InlineOrRef::<T>::Ref(*s),
            r is None <==> self is Inline,
    {
        match self {
            InlineOrRef::Ref(reference) => Some(reference),
            InlineOrRef::Inline(_) => None,
        }
    }

    pub fn inline(&self) -> (r: Option<&T>)
        ensures
            r matches Some(v) ==> *self == InlineOrRef::<T>::Inline(*v),
            r is None <==> self is Ref,
    {
        match self {
            InlineOrRef::Inline(value) => Some(value),
            InlineOrRef::Ref(_) => None,
        }
    }
}

/// Either a resolved object written in place or a resolved reference to one.
#[derive(Debug, Clone)]
pub enum ResolvedInlineOrRef<T, K> {
    Ref(ResolvedSymbolRef<K>),
    Inline(T),
}

impl<T, K> ResolvedInlineOrRef<T, K> {
    pub fn value(&self) -> (r: Option<&T>)
        ensures
            r matches Some(v) ==> *self == ResolvedInlineOrRef::<T, K>::Inline(*v),
            r is None <==> self is Ref,
    {
        match self {
            ResolvedInlineOrRef::Inline(value) => Some(value),
            ResolvedInlineOrRef::Ref(_) => None,
        }
    }

    pub fn symbol_ref(&self) -> (r: Option<&ResolvedSymbolRef<K>>)
        ensures
            r matches Some(s) ==> *self == ResolvedInlineOrRef::<T, K>::Ref(*s),
            r is None <==> self is Inline,
    {
        match self {
            ResolvedInlineOrRef::Ref(reference) => Some(reference),
            ResolvedInlineOrRef::Inline(_) => None,
        }
    }
}

} // verus!
