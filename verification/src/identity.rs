//! Stable identities of closed types and of the constructors of algebraic types: digests of
//! canonical JSON.

use vstd::prelude::*;

use crate::concrete::{
    concrete_fields_view, concretes_view, constructors_view, ConcreteConstructor,
    ConcreteNamedBody, ConcreteType, SConcrete, SNamedBody,
};
use crate::descriptors::{
    concrete_type_to_json, descriptor, object3, string_json, text_json,
};
use crate::env::keyed;
use crate::error::{MagError, SError};
use crate::json::{with_member, Json, JsonNumber, SJson, SNumber};
use crate::resolve::type_error;
use crate::text::{cat2, cat3, comes_before, same};
use crate::wire::{json_bytes, render_bytes, wired};

verus! {

broadcast use vstd::seq_lib::group_seq_properties;

/// The digest of some bytes in lower-case hexadecimal digits.
pub uninterp spec fn sha256_hex(bytes: Seq<u8>) -> Seq<char>;

/// Whether a character is a lower-case hexadecimal digit.
pub open spec fn hex_digit(c: char) -> bool {
    ('0' <= c && c <= '9') || ('a' <= c && c <= 'f')
}

/// Whether a text is that of a digest: sixty-four lower-case hexadecimal digits.
pub open spec fn digest_shape(s: Seq<char>) -> bool {
    s.len() == 64 && forall|i: int| 0 <= i < s.len() ==> hex_digit(#[trigger] s[i])
}

/// `sha2::Sha256::digest`, shown in lower-case hexadecimal digits: two for each of its thirty-two
/// bytes.
#[verifier::external_body]
pub(crate) fn sha256(bytes: &Vec<u8>) -> (r: String)
    ensures
        r@ == sha256_hex(bytes@),
        digest_shape(r@),
{
    format!("{:x}", <sha2::Sha256 as sha2::Digest>::digest(bytes))
}

pub open spec fn digest_text(bytes: Seq<u8>) -> Seq<char> {
    "sha256:"@ + sha256_hex(bytes)
}

/// Whether a text is that of an identity: `sha256:` and a digest.
pub open spec fn identity_shape(s: Seq<char>) -> bool {
    exists|hex: Seq<char>| #[trigger] digest_shape(hex) && s == "sha256:"@ + hex
}

pub fn digest(bytes: &Vec<u8>) -> (r: String)
    ensures
        r@ == digest_text(bytes@),
        identity_shape(r@),
{
    let hex = sha256(bytes);
    assert(digest_shape(hex@));
    cat2("sha256:", &hex)
}

#[derive(Debug)]
pub struct SemanticTypeId(pub String);

#[derive(Debug)]
pub struct SemanticConstructorId(pub String);

impl SemanticTypeId {
    pub fn as_str(&self) -> (r: &str)
        ensures
            r@ == self.0@,
    {
        self.0.as_str()
    }
}

impl SemanticConstructorId {
    pub fn as_str(&self) -> (r: &str)
        ensures
            r@ == self.0@,
    {
        self.0.as_str()
    }
}

/// What the identity of a type is made of.
pub open spec fn type_identity(t: SConcrete) -> SJson {
    SJson::Object(
        seq![
            ("domain"@, text_json("mag.type.v2"@)),
            ("version"@, SJson::Number(SNumber::PosInt(2))),
            ("descriptor"@, descriptor(t)),
        ],
    )
}

pub open spec fn type_id(t: SConcrete) -> Seq<char> {
    digest_text(json_bytes(wired(type_identity(t))))
}

/// What the identity of a constructor is made of.
pub open spec fn constructor_identity(t: SConcrete, name: Seq<char>) -> SJson {
    SJson::Object(
        seq![
            ("domain"@, text_json("mag.constructor.v2"@)),
            ("owner"@, text_json(type_id(t))),
            ("name"@, text_json(name)),
        ],
    )
}

pub open spec fn has_name(items: Seq<(Seq<char>, SConcrete)>, name: Seq<char>) -> bool {
    exists|i: int| 0 <= i < items.len() && (#[trigger] items[i]).0 == name
}

pub open spec fn constructor_digest(t: SConcrete, name: Seq<char>) -> Result<Seq<char>, SError> {
    match t {
        SConcrete::Adt(_, _, constructors) => if has_name(constructors, name) {
            Ok(digest_text(json_bytes(wired(constructor_identity(t, name)))))
        } else {
            type_error("constructor "@ + name + " is not a member of this ADT"@)
        },
        _ => type_error("constructor identity requires an ADT owner"@),
    }
}

fn is_constructor(items: &Vec<ConcreteConstructor>, name: &str) -> (r: bool)
    ensures
        r == has_name(constructors_view(items@), name@),
{
    let ghost all = constructors_view(items@);
    let mut i: usize = 0;
    assert(all.len() == items@.len());
    while i < items.len()
        invariant
            i <= items.len(),
            all == constructors_view(items@),
            all.len() == items@.len(),
            forall|j: int| 0 <= j < i ==> (#[trigger] all[j]).0 != name@,
        decreases items.len() - i,
    {
        assert(all[i as int].0 == items@[i as int].name@);
        if same(&items[i].name, name) {
            return true;
        }
        i = i + 1;
    }
    false
}

/// Declarations by their identities, in the order of those.
pub type SDeclarations = Seq<(Seq<char>, SConcrete)>;

pub open spec fn collision(id: Seq<char>) -> Result<SDeclarations, SError> {
    type_error("semantic type identity collision at "@ + id)
}

/// The declarations found before and those of a type and of the types that it is made of.
pub open spec fn declared_types(t: SConcrete, done: SDeclarations) -> Result<SDeclarations, SError>
    decreases t, 1nat,
{
    let id = type_id(t);
    match keyed(done, id, 0) {
        Some(known) => if known == t {
            Ok(done)
        } else {
            collision(id)
        },
        None => declared_parts(t, with_member(done, id, t)),
    }
}

pub open spec fn declared_parts(t: SConcrete, done: SDeclarations) -> Result<SDeclarations, SError>
    decreases t, 0nat,
{
    match t {
        SConcrete::Named(_, arguments, body) => match declared_all(arguments, done) {
            Err(e) => Err(e),
            Ok(done) => match body {
                SNamedBody::Fields(fields) => declared_fields(fields, done),
                SNamedBody::Alias(t) => declared_types(*t, done),
            },
        },
        SConcrete::Adt(_, arguments, constructors) => match declared_all(arguments, done) {
            Err(e) => Err(e),
            Ok(done) => declared_fields(constructors, done),
        },
        SConcrete::List(item) => declared_types(*item, done),
        SConcrete::SetOf(item) => declared_types(*item, done),
        SConcrete::MapOf(key, value) => match declared_types(*key, done) {
            Err(e) => Err(e),
            Ok(done) => declared_types(*value, done),
        },
        SConcrete::Record(fields) => declared_fields(fields, done),
        SConcrete::Product(items) => declared_all(items, done),
        _ => Ok(done),
    }
}

pub open spec fn declared_all(items: Seq<SConcrete>, done: SDeclarations) -> Result<
    SDeclarations,
    SError,
>
    decreases items, 0nat,
{
    if items.len() == 0 {
        Ok(done)
    } else {
        match declared_types(items[0], done) {
            Err(e) => Err(e),
            Ok(done) => declared_all(items.drop_first(), done),
        }
    }
}

pub open spec fn declared_fields(items: Seq<(Seq<char>, SConcrete)>, done: SDeclarations) -> Result<
    SDeclarations,
    SError,
>
    decreases items, 0nat,
{
    if items.len() == 0 {
        Ok(done)
    } else {
        match declared_types(items[0].1, done) {
            Err(e) => Err(e),
            Ok(done) => declared_fields(items.drop_first(), done),
        }
    }
}

pub open spec fn declarations_result(
    r: Result<(), MagError>,
    after: Seq<(String, ConcreteType)>,
) -> Result<SDeclarations, SError> {
    match r {
        Ok(_) => Ok(concrete_fields_view(after)),
        Err(e) => Err(e@),
    }
}

pub fn declaration_of<'a>(items: &'a Vec<(String, ConcreteType)>, id: &str) -> (r: Option<
    &'a ConcreteType,
>)
    ensures
        match r {
            Some(t) => keyed(concrete_fields_view(items@), id@, 0) == Some(t@),
            None => keyed(concrete_fields_view(items@), id@, 0) is None,
        },
{
    let ghost all = concrete_fields_view(items@);
    let mut i: usize = 0;
    assert(all.len() == items@.len());
    while i < items.len()
        invariant
            i <= items.len(),
            all == concrete_fields_view(items@),
            all.len() == items@.len(),
            keyed(all, id@, 0) == keyed(all, id@, i as nat),
        decreases items.len() - i,
    {
        assert(all[i as int] == (items@[i as int].0@, items@[i as int].1@));
        if same(&items[i].0, id) {
            return Some(&items[i].1);
        }
        i = i + 1;
    }
    None
}

pub fn put_declaration(items: &mut Vec<(String, ConcreteType)>, id: String, t: ConcreteType)
    ensures
        concrete_fields_view(final(items)@) == with_member(
            concrete_fields_view(old(items)@),
            id@,
            t@,
        ),
    decreases old(items)@.len(),
{
    let ghost all = concrete_fields_view(items@);
    assert(all.len() == items@.len());
    if items.len() == 0 {
        let ghost entry = (id@, t@);
        items.push((id, t));
        assert(concrete_fields_view(items@) =~= seq![entry]);
        return;
    }
    let n = items.len();
    assert(all.last() == (items@[n - 1].0@, items@[n - 1].1@));
    if same(&items[n - 1].0, &id) {
        let ghost entry = (id@, t@);
        items.set(n - 1, (id, t));
        assert(concrete_fields_view(items@) =~= all.drop_last().push(entry));
    } else if comes_before(&id, &items[n - 1].0) {
        match items.pop() {
            Some(last) => {
                assert(concrete_fields_view(items@) =~= all.drop_last());
                put_declaration(items, id, t);
                let ghost put = concrete_fields_view(items@);
                items.push(last);
                assert(concrete_fields_view(items@) =~= put.push(all.last()));
            },
            None => {},
        }
    } else {
        let ghost entry = (id@, t@);
        items.push((id, t));
        assert(concrete_fields_view(items@) =~= all.push(entry));
    }
}

impl ConcreteType {
    pub fn stable_id(&self) -> (r: SemanticTypeId)
        ensures
            r.0@ == type_id(self@),
            identity_shape(r.0@),
    {
        let identity = object3(
            "domain",
            string_json("mag.type.v2"),
            "version",
            Json::Number(JsonNumber::PosInt(2)),
            "descriptor",
            concrete_type_to_json(self),
        );
        assert(identity@ == type_identity(self@));
        SemanticTypeId(digest(&render_bytes(&identity)))
    }

    pub fn constructor_id(&self, name: &str) -> (r: Result<SemanticConstructorId, MagError>)
        ensures
            match r {
                Ok(id) => constructor_digest(self@, name@) == Ok::<Seq<char>, SError>(id.0@)
                    && identity_shape(id.0@),
                Err(e) => constructor_digest(self@, name@) == Err::<Seq<char>, SError>(e@),
            },
    {
        match self {
            ConcreteType::Adt { constructors, .. } => {
                if !is_constructor(constructors, name) {
                    return Err(
                        MagError::Type(
                            cat3("constructor ", name, " is not a member of this ADT"),
                        ),
                    );
                }
                let identity = object3(
                    "domain",
                    string_json("mag.constructor.v2"),
                    "owner",
                    string_json(self.stable_id().as_str()),
                    "name",
                    string_json(name),
                );
                assert(identity@ == constructor_identity(self@, name@));
                Ok(SemanticConstructorId(digest(&render_bytes(&identity))))
            },
            _ => Err(MagError::Type("constructor identity requires an ADT owner".to_owned())),
        }
    }

    /// The type and the types that it is made of, by their identities.
    pub fn declarations(&self) -> (r: Result<Vec<(String, ConcreteType)>, MagError>)
        ensures
            match r {
                Ok(d) => declared_types(self@, Seq::empty()) == Ok::<SDeclarations, SError>(
                    concrete_fields_view(d@),
                ),
                Err(e) => declared_types(self@, Seq::empty()) == Err::<SDeclarations, SError>(e@),
            },
    {
        let mut declarations: Vec<(String, ConcreteType)> = Vec::new();
        assert(concrete_fields_view(declarations@) =~= Seq::empty());
        self.collect_declarations(&mut declarations)?;
        Ok(declarations)
    }

    pub fn collect_declarations(&self, done: &mut Vec<(String, ConcreteType)>) -> (r: Result<
        (),
        MagError,
    >)
        ensures
            declarations_result(r, final(done)@) == declared_types(
                self@,
                concrete_fields_view(old(done)@),
            ),
        decreases self, 1nat,
    {
        let id = self.stable_id().0;
        match declaration_of(done, &id) {
            Some(known) => {
                if known.equals(self) {
                    return Ok(());
                }
                return Err(MagError::Type(cat2("semantic type identity collision at ", &id)));
            },
            None => {},
        }
        put_declaration(done, id, self.clone());
        self.collect_parts(done)
    }

    fn collect_parts(&self, done: &mut Vec<(String, ConcreteType)>) -> (r: Result<(), MagError>)
        ensures
            declarations_result(r, final(done)@) == declared_parts(
                self@,
                concrete_fields_view(old(done)@),
            ),
        decreases self, 0nat,
    {
        match self {
            ConcreteType::Named { arguments, body, .. } => {
                collect_all(arguments, done)?;
                match body {
                    ConcreteNamedBody::Fields { fields } => {
                        assert(body.model() == SNamedBody::Fields(concrete_fields_view(fields@)));
                        collect_fields(fields, done)
                    },
                    ConcreteNamedBody::Alias { ty } => {
                        assert(body.model() == SNamedBody::Alias(Box::new(ty@)));
                        ty.collect_declarations(done)
                    },
                }
            },
            ConcreteType::Adt { arguments, constructors, .. } => {
                collect_all(arguments, done)?;
                collect_constructors(constructors, done)
            },
            ConcreteType::List { item } => item.collect_declarations(done),
            ConcreteType::SetOf { item } => item.collect_declarations(done),
            ConcreteType::MapOf { key, value } => {
                key.collect_declarations(done)?;
                value.collect_declarations(done)
            },
            ConcreteType::Record { fields } => collect_fields(fields, done),
            ConcreteType::Product { items } => collect_all(items, done),
            _ => Ok(()),
        }
    }
}

fn collect_all(items: &Vec<ConcreteType>, done: &mut Vec<(String, ConcreteType)>) -> (r: Result<
    (),
    MagError,
>)
    ensures
        declarations_result(r, final(done)@) == declared_all(
            concretes_view(items@),
            concrete_fields_view(old(done)@),
        ),
    decreases items, 0nat,
{
    let ghost all = concretes_view(items@);
    let ghost start = concrete_fields_view(done@);
    let mut i: usize = 0;
    proof {
        assert(all.len() == items@.len());
        assert(all.skip(0) =~= all);
    }
    while i < items.len()
        invariant
            i <= items.len(),
            all == concretes_view(items@),
            all.len() == items@.len(),
            start == concrete_fields_view(old(done)@),
            declared_all(all, start) == declared_all(
                all.skip(i as int),
                concrete_fields_view(done@),
            ),
        decreases items.len() - i,
    {
        proof {
            assert(all.skip(i as int)[0] == items@[i as int]@);
            assert(all.skip(i as int).drop_first() =~= all.skip(i + 1));
        }
        items[i].collect_declarations(done)?;
        i = i + 1;
    }
    Ok(())
}

fn collect_fields(items: &Vec<(String, ConcreteType)>, done: &mut Vec<(String, ConcreteType)>) -> (r:
    Result<(), MagError>)
    ensures
        declarations_result(r, final(done)@) == declared_fields(
            concrete_fields_view(items@),
            concrete_fields_view(old(done)@),
        ),
    decreases items, 0nat,
{
    let ghost all = concrete_fields_view(items@);
    let ghost start = concrete_fields_view(done@);
    let mut i: usize = 0;
    proof {
        assert(all.len() == items@.len());
        assert(all.skip(0) =~= all);
    }
    while i < items.len()
        invariant
            i <= items.len(),
            all == concrete_fields_view(items@),
            all.len() == items@.len(),
            start == concrete_fields_view(old(done)@),
            declared_fields(all, start) == declared_fields(
                all.skip(i as int),
                concrete_fields_view(done@),
            ),
        decreases items.len() - i,
    {
        proof {
            assert(all.skip(i as int)[0] == (items@[i as int].0@, items@[i as int].1@));
            assert(all.skip(i as int).drop_first() =~= all.skip(i + 1));
        }
        items[i].1.collect_declarations(done)?;
        i = i + 1;
    }
    Ok(())
}

fn collect_constructors(
    items: &Vec<ConcreteConstructor>,
    done: &mut Vec<(String, ConcreteType)>,
) -> (r: Result<(), MagError>)
    ensures
        declarations_result(r, final(done)@) == declared_fields(
            constructors_view(items@),
            concrete_fields_view(old(done)@),
        ),
    decreases items, 0nat,
{
    let ghost all = constructors_view(items@);
    let ghost start = concrete_fields_view(done@);
    let mut i: usize = 0;
    proof {
        assert(all.len() == items@.len());
        assert(all.skip(0) =~= all);
    }
    while i < items.len()
        invariant
            i <= items.len(),
            all == constructors_view(items@),
            all.len() == items@.len(),
            start == concrete_fields_view(old(done)@),
            declared_fields(all, start) == declared_fields(
                all.skip(i as int),
                concrete_fields_view(done@),
            ),
        decreases items.len() - i,
    {
        proof {
            assert(all.skip(i as int)[0] == (items@[i as int].name@, items@[i as int].payload@));
            assert(all.skip(i as int).drop_first() =~= all.skip(i + 1));
        }
        items[i].payload.collect_declarations(done)?;
        i = i + 1;
    }
    Ok(())
}

} // verus!
