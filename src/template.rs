//! Schemas: typed field lists stored as records, whose field ids are issued
//! by a per-schema counter and never reused.
use vstd::bytes::lemma_auto_spec_u32_to_from_le_bytes;
use vstd::prelude::*;

use vstd::string::StringExecFns;

use crate::codec::{enc_items, lemma_split, Record};
use crate::crud::{
    initialize, initialize_effect, lemma_store_fits, lemma_store_load, load, payload_record, store,
    store_effect,
};
use crate::error::StoreError;
use crate::project::{get_uniq_id, uniq_id_effect};
use crate::slot::{Key, Slot};
use crate::storage::{add_effect, assign, assign_effect};

verus! {

/// The type of an element of a container field: any field type but a
/// container.
#[derive(Debug)]
pub enum SolceryNestedType {
    SBool,
    SInt,
    SString,
    SUrl,
    SLink { template: Key },
    SBrick { brick_type: u32 },
    SEnum { values: Vec<String> },
}

pub enum NestedTypeModel {
    Bool,
    Int,
    Str,
    Url,
    Link(Seq<u8>),
    Brick(u32),
    Enumeration(Seq<Seq<char>>),
}

/// The type of a field.
#[derive(Debug)]
pub enum SolceryType {
    SBool,
    SInt,
    SString,
    SUrl,
    SLink { template: Key },
    SBrick { brick_type: u32 },
    SArray { nested_type: SolceryNestedType },
    SEnum { values: Vec<String> },
    SMap { key: SolceryNestedType, value: SolceryNestedType },
}

pub enum TypeModel {
    Bool,
    Int,
    Str,
    Url,
    Link(Seq<u8>),
    Brick(u32),
    Array(NestedTypeModel),
    Enumeration(Seq<Seq<char>>),
    Mapping(NestedTypeModel, NestedTypeModel),
}

proof fn lemma_tag(tag: u8, rest: Seq<u8>, b: Seq<u8>, pos: int)
    requires
        0 <= pos,
        pos + 1 + rest.len() <= b.len(),
        b.subrange(pos, pos + 1 + rest.len()) == seq![tag] + rest,
    ensures
        u8::parse(b, pos) == Some((tag, pos + 1)),
        b.subrange(pos + 1, pos + 1 + rest.len()) == rest,
{
    lemma_split(b, pos, seq![tag], rest);
    assert(b[pos] == b.subrange(pos, pos + 1)[0]);
}

impl Record for SolceryNestedType {
    type M = NestedTypeModel;

    open spec fn model(&self) -> NestedTypeModel {
        match self {
            SolceryNestedType::SBool => NestedTypeModel::Bool,
            SolceryNestedType::SInt => NestedTypeModel::Int,
            SolceryNestedType::SString => NestedTypeModel::Str,
            SolceryNestedType::SUrl => NestedTypeModel::Url,
            SolceryNestedType::SLink { template } => NestedTypeModel::Link(template@),
            SolceryNestedType::SBrick { brick_type } => NestedTypeModel::Brick(*brick_type),
            SolceryNestedType::SEnum { values } => NestedTypeModel::Enumeration(values.model()),
        }
    }

    open spec fn framable(m: NestedTypeModel) -> bool {
        match m {
            NestedTypeModel::Link(k) => Key::framable(k),
            NestedTypeModel::Enumeration(vs) => Vec::<String>::framable(vs),
            _ => true,
        }
    }

    open spec fn enc(m: NestedTypeModel) -> Seq<u8> {
        match m {
            NestedTypeModel::Bool => seq![0u8],
            NestedTypeModel::Int => seq![1u8],
            NestedTypeModel::Str => seq![2u8],
            NestedTypeModel::Url => seq![3u8],
            NestedTypeModel::Link(k) => seq![4u8] + Key::enc(k),
            NestedTypeModel::Brick(t) => seq![5u8] + u32::enc(t),
            NestedTypeModel::Enumeration(vs) => seq![6u8] + Vec::<String>::enc(vs),
        }
    }

    open spec fn parse(b: Seq<u8>, pos: int) -> Option<(NestedTypeModel, int)> {
        match u8::parse(b, pos) {
            Some((tag, p)) => if tag == 0 {
                Some((NestedTypeModel::Bool, p))
            } else if tag == 1 {
                Some((NestedTypeModel::Int, p))
            } else if tag == 2 {
                Some((NestedTypeModel::Str, p))
            } else if tag == 3 {
                Some((NestedTypeModel::Url, p))
            } else if tag == 4 {
                match Key::parse(b, p) {
                    Some((k, q)) => Some((NestedTypeModel::Link(k), q)),
                    None => None,
                }
            } else if tag == 5 {
                match u32::parse(b, p) {
                    Some((t, q)) => Some((NestedTypeModel::Brick(t), q)),
                    None => None,
                }
            } else if tag == 6 {
                match Vec::<String>::parse(b, p) {
                    Some((vs, q)) => Some((NestedTypeModel::Enumeration(vs), q)),
                    None => None,
                }
            } else {
                None
            },
            None => None,
        }
    }

    proof fn lemma_round_trip(m: NestedTypeModel, b: Seq<u8>, pos: int) {
        match m {
            NestedTypeModel::Bool => lemma_tag(0, Seq::empty(), b, pos),
            NestedTypeModel::Int => lemma_tag(1, Seq::empty(), b, pos),
            NestedTypeModel::Str => lemma_tag(2, Seq::empty(), b, pos),
            NestedTypeModel::Url => lemma_tag(3, Seq::empty(), b, pos),
            NestedTypeModel::Link(k) => {
                lemma_tag(4, Key::enc(k), b, pos);
                Key::lemma_round_trip(k, b, pos + 1);
            },
            NestedTypeModel::Brick(t) => {
                lemma_tag(5, u32::enc(t), b, pos);
                u32::lemma_round_trip(t, b, pos + 1);
            },
            NestedTypeModel::Enumeration(vs) => {
                lemma_tag(6, Vec::<String>::enc(vs), b, pos);
                Vec::<String>::lemma_round_trip(vs, b, pos + 1);
            },
        }
    }

    proof fn lemma_parse_canonical(b: Seq<u8>, pos: int) {
        let (tag, p) = u8::parse(b, pos).unwrap();
        assert(b.subrange(pos, p) =~= seq![tag]);
        if tag == 4 {
            Key::lemma_parse_canonical(b, p);
            let (k, q) = Key::parse(b, p).unwrap();
            assert(b.subrange(pos, q) =~= b.subrange(pos, p) + b.subrange(p, q));
        } else if tag == 5 {
            u32::lemma_parse_canonical(b, p);
            let (t, q) = u32::parse(b, p).unwrap();
            assert(b.subrange(pos, q) =~= b.subrange(pos, p) + b.subrange(p, q));
        } else if tag == 6 {
            Vec::<String>::lemma_parse_canonical(b, p);
            let (vs, q) = Vec::<String>::parse(b, p).unwrap();
            assert(b.subrange(pos, q) =~= b.subrange(pos, p) + b.subrange(p, q));
        }
    }

    fn is_framable(&self) -> (r: bool) {
        match self {
            SolceryNestedType::SLink { template } => template.is_framable(),
            SolceryNestedType::SEnum { values } => values.is_framable(),
            _ => true,
        }
    }

    fn encode_into(&self, out: &mut Vec<u8>) {
        match self {
            SolceryNestedType::SBool => out.push(0u8),
            SolceryNestedType::SInt => out.push(1u8),
            SolceryNestedType::SString => out.push(2u8),
            SolceryNestedType::SUrl => out.push(3u8),
            SolceryNestedType::SLink { template } => {
                out.push(4u8);
                template.encode_into(out);
            },
            SolceryNestedType::SBrick { brick_type } => {
                out.push(5u8);
                brick_type.encode_into(out);
            },
            SolceryNestedType::SEnum { values } => {
                out.push(6u8);
                values.encode_into(out);
            },
        }
        assert(out@ =~= old(out)@ + Self::enc(self.model()));
    }

    fn decode_at(b: &[u8], pos: usize) -> (r: Option<(SolceryNestedType, usize)>) {
        let (tag, p) = match u8::decode_at(b, pos) {
            Some(x) => x,
            None => return None,
        };
        if tag == 0 {
            Some((SolceryNestedType::SBool, p))
        } else if tag == 1 {
            Some((SolceryNestedType::SInt, p))
        } else if tag == 2 {
            Some((SolceryNestedType::SString, p))
        } else if tag == 3 {
            Some((SolceryNestedType::SUrl, p))
        } else if tag == 4 {
            match Key::decode_at(b, p) {
                Some((template, q)) => Some((SolceryNestedType::SLink { template }, q)),
                None => None,
            }
        } else if tag == 5 {
            match u32::decode_at(b, p) {
                Some((brick_type, q)) => Some((SolceryNestedType::SBrick { brick_type }, q)),
                None => None,
            }
        } else if tag == 6 {
            match Vec::<String>::decode_at(b, p) {
                Some((values, q)) => Some((SolceryNestedType::SEnum { values }, q)),
                None => None,
            }
        } else {
            None
        }
    }
}

impl Record for SolceryType {
    type M = TypeModel;

    open spec fn model(&self) -> TypeModel {
        match self {
            SolceryType::SBool => TypeModel::Bool,
            SolceryType::SInt => TypeModel::Int,
            SolceryType::SString => TypeModel::Str,
            SolceryType::SUrl => TypeModel::Url,
            SolceryType::SLink { template } => TypeModel::Link(template@),
            SolceryType::SBrick { brick_type } => TypeModel::Brick(*brick_type),
            SolceryType::SArray { nested_type } => TypeModel::Array(nested_type.model()),
            SolceryType::SEnum { values } => TypeModel::Enumeration(values.model()),
            SolceryType::SMap { key, value } => TypeModel::Mapping(key.model(), value.model()),
        }
    }

    open spec fn framable(m: TypeModel) -> bool {
        match m {
            TypeModel::Link(k) => Key::framable(k),
            TypeModel::Array(n) => SolceryNestedType::framable(n),
            TypeModel::Enumeration(vs) => Vec::<String>::framable(vs),
            TypeModel::Mapping(k, v) => SolceryNestedType::framable(k)
                && SolceryNestedType::framable(v),
            _ => true,
        }
    }

    open spec fn enc(m: TypeModel) -> Seq<u8> {
        match m {
            TypeModel::Bool => seq![0u8],
            TypeModel::Int => seq![1u8],
            TypeModel::Str => seq![2u8],
            TypeModel::Url => seq![3u8],
            TypeModel::Link(k) => seq![4u8] + Key::enc(k),
            TypeModel::Brick(t) => seq![5u8] + u32::enc(t),
            TypeModel::Array(n) => seq![6u8] + SolceryNestedType::enc(n),
            TypeModel::Enumeration(vs) => seq![7u8] + Vec::<String>::enc(vs),
            TypeModel::Mapping(k, v) => seq![8u8] + SolceryNestedType::enc(k)
                + SolceryNestedType::enc(v),
        }
    }

    open spec fn parse(b: Seq<u8>, pos: int) -> Option<(TypeModel, int)> {
        match u8::parse(b, pos) {
            Some((tag, p)) => if tag == 0 {
                Some((TypeModel::Bool, p))
            } else if tag == 1 {
                Some((TypeModel::Int, p))
            } else if tag == 2 {
                Some((TypeModel::Str, p))
            } else if tag == 3 {
                Some((TypeModel::Url, p))
            } else if tag == 4 {
                match Key::parse(b, p) {
                    Some((k, q)) => Some((TypeModel::Link(k), q)),
                    None => None,
                }
            } else if tag == 5 {
                match u32::parse(b, p) {
                    Some((t, q)) => Some((TypeModel::Brick(t), q)),
                    None => None,
                }
            } else if tag == 6 {
                match SolceryNestedType::parse(b, p) {
                    Some((n, q)) => Some((TypeModel::Array(n), q)),
                    None => None,
                }
            } else if tag == 7 {
                match Vec::<String>::parse(b, p) {
                    Some((vs, q)) => Some((TypeModel::Enumeration(vs), q)),
                    None => None,
                }
            } else if tag == 8 {
                match SolceryNestedType::parse(b, p) {
                    Some((k, q)) => match SolceryNestedType::parse(b, q) {
                        Some((v, q2)) => Some((TypeModel::Mapping(k, v), q2)),
                        None => None,
                    },
                    None => None,
                }
            } else {
                None
            },
            None => None,
        }
    }

    proof fn lemma_round_trip(m: TypeModel, b: Seq<u8>, pos: int) {
        match m {
            TypeModel::Bool => lemma_tag(0, Seq::empty(), b, pos),
            TypeModel::Int => lemma_tag(1, Seq::empty(), b, pos),
            TypeModel::Str => lemma_tag(2, Seq::empty(), b, pos),
            TypeModel::Url => lemma_tag(3, Seq::empty(), b, pos),
            TypeModel::Link(k) => {
                lemma_tag(4, Key::enc(k), b, pos);
                Key::lemma_round_trip(k, b, pos + 1);
            },
            TypeModel::Brick(t) => {
                lemma_tag(5, u32::enc(t), b, pos);
                u32::lemma_round_trip(t, b, pos + 1);
            },
            TypeModel::Array(n) => {
                lemma_tag(6, SolceryNestedType::enc(n), b, pos);
                SolceryNestedType::lemma_round_trip(n, b, pos + 1);
            },
            TypeModel::Enumeration(vs) => {
                lemma_tag(7, Vec::<String>::enc(vs), b, pos);
                Vec::<String>::lemma_round_trip(vs, b, pos + 1);
            },
            TypeModel::Mapping(k, v) => {
                let ek = SolceryNestedType::enc(k);
                let ev = SolceryNestedType::enc(v);
                assert(seq![8u8] + ek + ev =~= seq![8u8] + (ek + ev));
                lemma_tag(8, ek + ev, b, pos);
                lemma_split(b, pos + 1, ek, ev);
                SolceryNestedType::lemma_round_trip(k, b, pos + 1);
                SolceryNestedType::lemma_round_trip(v, b, pos + 1 + ek.len());
            },
        }
    }

    proof fn lemma_parse_canonical(b: Seq<u8>, pos: int) {
        let (tag, p) = u8::parse(b, pos).unwrap();
        assert(b.subrange(pos, p) =~= seq![tag]);
        if tag == 4 {
            Key::lemma_parse_canonical(b, p);
            let (k, q) = Key::parse(b, p).unwrap();
            assert(b.subrange(pos, q) =~= b.subrange(pos, p) + b.subrange(p, q));
        } else if tag == 5 {
            u32::lemma_parse_canonical(b, p);
            let (t, q) = u32::parse(b, p).unwrap();
            assert(b.subrange(pos, q) =~= b.subrange(pos, p) + b.subrange(p, q));
        } else if tag == 6 {
            SolceryNestedType::lemma_parse_canonical(b, p);
            let (n, q) = SolceryNestedType::parse(b, p).unwrap();
            assert(b.subrange(pos, q) =~= b.subrange(pos, p) + b.subrange(p, q));
        } else if tag == 7 {
            Vec::<String>::lemma_parse_canonical(b, p);
            let (vs, q) = Vec::<String>::parse(b, p).unwrap();
            assert(b.subrange(pos, q) =~= b.subrange(pos, p) + b.subrange(p, q));
        } else if tag == 8 {
            SolceryNestedType::lemma_parse_canonical(b, p);
            let (k, q) = SolceryNestedType::parse(b, p).unwrap();
            SolceryNestedType::lemma_parse_canonical(b, q);
            let (v, q2) = SolceryNestedType::parse(b, q).unwrap();
            assert(b.subrange(pos, q2) =~= b.subrange(pos, p) + b.subrange(p, q) + b.subrange(
                q,
                q2,
            ));
        }
    }

    fn is_framable(&self) -> (r: bool) {
        match self {
            SolceryType::SLink { template } => template.is_framable(),
            SolceryType::SArray { nested_type } => nested_type.is_framable(),
            SolceryType::SEnum { values } => values.is_framable(),
            SolceryType::SMap { key, value } => key.is_framable() && value.is_framable(),
            _ => true,
        }
    }

    fn encode_into(&self, out: &mut Vec<u8>) {
        match self {
            SolceryType::SBool => out.push(0u8),
            SolceryType::SInt => out.push(1u8),
            SolceryType::SString => out.push(2u8),
            SolceryType::SUrl => out.push(3u8),
            SolceryType::SLink { template } => {
                out.push(4u8);
                template.encode_into(out);
            },
            SolceryType::SBrick { brick_type } => {
                out.push(5u8);
                brick_type.encode_into(out);
            },
            SolceryType::SArray { nested_type } => {
                out.push(6u8);
                nested_type.encode_into(out);
            },
            SolceryType::SEnum { values } => {
                out.push(7u8);
                values.encode_into(out);
            },
            SolceryType::SMap { key, value } => {
                out.push(8u8);
                key.encode_into(out);
                value.encode_into(out);
            },
        }
        assert(out@ =~= old(out)@ + Self::enc(self.model()));
    }

    fn decode_at(b: &[u8], pos: usize) -> (r: Option<(SolceryType, usize)>) {
        let (tag, p) = match u8::decode_at(b, pos) {
            Some(x) => x,
            None => return None,
        };
        if tag == 0 {
            Some((SolceryType::SBool, p))
        } else if tag == 1 {
            Some((SolceryType::SInt, p))
        } else if tag == 2 {
            Some((SolceryType::SString, p))
        } else if tag == 3 {
            Some((SolceryType::SUrl, p))
        } else if tag == 4 {
            match Key::decode_at(b, p) {
                Some((template, q)) => Some((SolceryType::SLink { template }, q)),
                None => None,
            }
        } else if tag == 5 {
            match u32::decode_at(b, p) {
                Some((brick_type, q)) => Some((SolceryType::SBrick { brick_type }, q)),
                None => None,
            }
        } else if tag == 6 {
            match SolceryNestedType::decode_at(b, p) {
                Some((nested_type, q)) => Some((SolceryType::SArray { nested_type }, q)),
                None => None,
            }
        } else if tag == 7 {
            match Vec::<String>::decode_at(b, p) {
                Some((values, q)) => Some((SolceryType::SEnum { values }, q)),
                None => None,
            }
        } else if tag == 8 {
            match SolceryNestedType::decode_at(b, p) {
                Some((key, q)) => match SolceryNestedType::decode_at(b, q) {
                    Some((value, q2)) => Some((SolceryType::SMap { key, value }, q2)),
                    None => None,
                },
                None => None,
            }
        } else {
            None
        }
    }
}

/// What describes a field, besides its id.
#[derive(Debug)]
pub struct FieldParams {
    pub field_type: SolceryType,
    pub name: String,
    pub code: String,
    pub construct_client: bool,
    pub construct_server: bool,
}

pub struct FieldParamsModel {
    pub field_type: TypeModel,
    pub name: Seq<char>,
    pub code: Seq<char>,
    pub construct_client: bool,
    pub construct_server: bool,
}

impl Record for FieldParams {
    type M = FieldParamsModel;

    open spec fn model(&self) -> FieldParamsModel {
        FieldParamsModel {
            field_type: self.field_type.model(),
            name: self.name@,
            code: self.code@,
            construct_client: self.construct_client,
            construct_server: self.construct_server,
        }
    }

    open spec fn framable(m: FieldParamsModel) -> bool {
        SolceryType::framable(m.field_type) && String::framable(m.name) && String::framable(m.code)
    }

    open spec fn enc(m: FieldParamsModel) -> Seq<u8> {
        SolceryType::enc(m.field_type) + String::enc(m.name) + String::enc(m.code) + bool::enc(
            m.construct_client,
        ) + bool::enc(m.construct_server)
    }

    open spec fn parse(b: Seq<u8>, pos: int) -> Option<(FieldParamsModel, int)> {
        match SolceryType::parse(b, pos) {
            Some((field_type, p1)) => match String::parse(b, p1) {
                Some((name, p2)) => match String::parse(b, p2) {
                    Some((code, p3)) => match bool::parse(b, p3) {
                        Some((construct_client, p4)) => match bool::parse(b, p4) {
                            Some((construct_server, p5)) => Some(
                                (
                                    FieldParamsModel {
                                        field_type,
                                        name,
                                        code,
                                        construct_client,
                                        construct_server,
                                    },
                                    p5,
                                ),
                            ),
                            None => None,
                        },
                        None => None,
                    },
                    None => None,
                },
                None => None,
            },
            None => None,
        }
    }

    proof fn lemma_round_trip(m: FieldParamsModel, b: Seq<u8>, pos: int) {
        let e1 = SolceryType::enc(m.field_type);
        let e2 = String::enc(m.name);
        let e3 = String::enc(m.code);
        let e4 = bool::enc(m.construct_client);
        let e5 = bool::enc(m.construct_server);
        lemma_split(b, pos, e1 + e2 + e3 + e4, e5);
        lemma_split(b, pos, e1 + e2 + e3, e4);
        lemma_split(b, pos, e1 + e2, e3);
        lemma_split(b, pos, e1, e2);
        SolceryType::lemma_round_trip(m.field_type, b, pos);
        String::lemma_round_trip(m.name, b, pos + e1.len());
        String::lemma_round_trip(m.code, b, pos + e1.len() + e2.len());
        bool::lemma_round_trip(m.construct_client, b, pos + e1.len() + e2.len() + e3.len());
        bool::lemma_round_trip(
            m.construct_server,
            b,
            pos + e1.len() + e2.len() + e3.len() + e4.len(),
        );
    }

    proof fn lemma_parse_canonical(b: Seq<u8>, pos: int) {
        SolceryType::lemma_parse_canonical(b, pos);
        let (t, p1) = SolceryType::parse(b, pos).unwrap();
        String::lemma_parse_canonical(b, p1);
        let (n, p2) = String::parse(b, p1).unwrap();
        String::lemma_parse_canonical(b, p2);
        let (c, p3) = String::parse(b, p2).unwrap();
        bool::lemma_parse_canonical(b, p3);
        let (cc, p4) = bool::parse(b, p3).unwrap();
        bool::lemma_parse_canonical(b, p4);
        let (cs, p5) = bool::parse(b, p4).unwrap();
        assert(b.subrange(pos, p5) =~= b.subrange(pos, p1) + b.subrange(p1, p2) + b.subrange(
            p2,
            p3,
        ) + b.subrange(p3, p4) + b.subrange(p4, p5));
    }

    fn is_framable(&self) -> (r: bool) {
        self.field_type.is_framable() && self.name.is_framable() && self.code.is_framable()
    }

    fn encode_into(&self, out: &mut Vec<u8>) {
        self.field_type.encode_into(out);
        self.name.encode_into(out);
        self.code.encode_into(out);
        self.construct_client.encode_into(out);
        self.construct_server.encode_into(out);
        assert(out@ =~= old(out)@ + Self::enc(self.model()));
    }

    fn decode_at(b: &[u8], pos: usize) -> (r: Option<(FieldParams, usize)>) {
        let (field_type, p1) = match SolceryType::decode_at(b, pos) {
            Some(x) => x,
            None => return None,
        };
        let (name, p2) = match String::decode_at(b, p1) {
            Some(x) => x,
            None => return None,
        };
        let (code, p3) = match String::decode_at(b, p2) {
            Some(x) => x,
            None => return None,
        };
        let (construct_client, p4) = match bool::decode_at(b, p3) {
            Some(x) => x,
            None => return None,
        };
        let (construct_server, p5) = match bool::decode_at(b, p4) {
            Some(x) => x,
            None => return None,
        };
        Some((FieldParams { field_type, name, code, construct_client, construct_server }, p5))
    }
}

/// A field of a schema: its id, unique within the schema, and its
/// description.
#[derive(Debug)]
pub struct Field {
    pub id: u32,
    pub params: FieldParams,
}

pub struct FieldModel {
    pub id: u32,
    pub params: FieldParamsModel,
}

impl Record for Field {
    type M = FieldModel;

    open spec fn model(&self) -> FieldModel {
        FieldModel { id: self.id, params: self.params.model() }
    }

    open spec fn framable(m: FieldModel) -> bool {
        FieldParams::framable(m.params)
    }

    open spec fn enc(m: FieldModel) -> Seq<u8> {
        u32::enc(m.id) + FieldParams::enc(m.params)
    }

    open spec fn parse(b: Seq<u8>, pos: int) -> Option<(FieldModel, int)> {
        match u32::parse(b, pos) {
            Some((id, p1)) => match FieldParams::parse(b, p1) {
                Some((params, p2)) => Some((FieldModel { id, params }, p2)),
                None => None,
            },
            None => None,
        }
    }

    proof fn lemma_round_trip(m: FieldModel, b: Seq<u8>, pos: int) {
        let e1 = u32::enc(m.id);
        let e2 = FieldParams::enc(m.params);
        lemma_split(b, pos, e1, e2);
        u32::lemma_round_trip(m.id, b, pos);
        FieldParams::lemma_round_trip(m.params, b, pos + e1.len());
    }

    proof fn lemma_parse_canonical(b: Seq<u8>, pos: int) {
        u32::lemma_parse_canonical(b, pos);
        let (id, p1) = u32::parse(b, pos).unwrap();
        FieldParams::lemma_parse_canonical(b, p1);
        let (params, p2) = FieldParams::parse(b, p1).unwrap();
        assert(b.subrange(pos, p2) =~= b.subrange(pos, p1) + b.subrange(p1, p2));
    }

    fn is_framable(&self) -> (r: bool) {
        self.params.is_framable()
    }

    fn encode_into(&self, out: &mut Vec<u8>) {
        self.id.encode_into(out);
        self.params.encode_into(out);
        assert(out@ =~= old(out)@ + Self::enc(self.model()));
    }

    fn decode_at(b: &[u8], pos: usize) -> (r: Option<(Field, usize)>) {
        let (id, p1) = match u32::decode_at(b, pos) {
            Some(x) => x,
            None => return None,
        };
        let (params, p2) = match FieldParams::decode_at(b, p1) {
            Some(x) => x,
            None => return None,
        };
        Some((Field { id, params }, p2))
    }
}

/// A schema: its tenant-scoped id, name and code, the registries its
/// instances are listed in, the largest field id issued so far, its fields
/// in order, and data that only its users read.
#[derive(Debug)]
pub struct TemplateData {
    pub id: u32,
    pub name: String,
    pub code: String,
    pub storages: Vec<Key>,
    pub max_field_index: u32,
    pub fields: Vec<Field>,
    pub custom_data: Vec<u8>,
}

pub struct TemplateModel {
    pub id: u32,
    pub name: Seq<char>,
    pub code: Seq<char>,
    pub storages: Seq<Seq<u8>>,
    pub max_field_index: u32,
    pub fields: Seq<FieldModel>,
    pub custom_data: Seq<u8>,
}

impl Record for TemplateData {
    type M = TemplateModel;

    open spec fn model(&self) -> TemplateModel {
        TemplateModel {
            id: self.id,
            name: self.name@,
            code: self.code@,
            storages: self.storages.model(),
            max_field_index: self.max_field_index,
            fields: self.fields.model(),
            custom_data: self.custom_data.model(),
        }
    }

    open spec fn framable(m: TemplateModel) -> bool {
        &&& String::framable(m.name)
        &&& String::framable(m.code)
        &&& Vec::<Key>::framable(m.storages)
        &&& Vec::<Field>::framable(m.fields)
        &&& Vec::<u8>::framable(m.custom_data)
    }

    open spec fn enc(m: TemplateModel) -> Seq<u8> {
        u32::enc(m.id) + String::enc(m.name) + String::enc(m.code) + Vec::<Key>::enc(m.storages)
            + u32::enc(m.max_field_index) + Vec::<Field>::enc(m.fields) + Vec::<u8>::enc(
            m.custom_data,
        )
    }

    open spec fn parse(b: Seq<u8>, pos: int) -> Option<(TemplateModel, int)> {
        match u32::parse(b, pos) {
            Some((id, p1)) => match String::parse(b, p1) {
                Some((name, p2)) => match String::parse(b, p2) {
                    Some((code, p3)) => match Vec::<Key>::parse(b, p3) {
                        Some((storages, p4)) => match u32::parse(b, p4) {
                            Some((max_field_index, p5)) => match Vec::<Field>::parse(b, p5) {
                                Some((fields, p6)) => match Vec::<u8>::parse(b, p6) {
                                    Some((custom_data, p7)) => Some(
                                        (
                                            TemplateModel {
                                                id,
                                                name,
                                                code,
                                                storages,
                                                max_field_index,
                                                fields,
                                                custom_data,
                                            },
                                            p7,
                                        ),
                                    ),
                                    None => None,
                                },
                                None => None,
                            },
                            None => None,
                        },
                        None => None,
                    },
                    None => None,
                },
                None => None,
            },
            None => None,
        }
    }

    proof fn lemma_round_trip(m: TemplateModel, b: Seq<u8>, pos: int) {
        let e1 = u32::enc(m.id);
        let e2 = String::enc(m.name);
        let e3 = String::enc(m.code);
        let e4 = Vec::<Key>::enc(m.storages);
        let e5 = u32::enc(m.max_field_index);
        let e6 = Vec::<Field>::enc(m.fields);
        let e7 = Vec::<u8>::enc(m.custom_data);
        lemma_split(b, pos, e1 + e2 + e3 + e4 + e5 + e6, e7);
        lemma_split(b, pos, e1 + e2 + e3 + e4 + e5, e6);
        lemma_split(b, pos, e1 + e2 + e3 + e4, e5);
        lemma_split(b, pos, e1 + e2 + e3, e4);
        lemma_split(b, pos, e1 + e2, e3);
        lemma_split(b, pos, e1, e2);
        let p1 = pos + e1.len();
        let p2 = p1 + e2.len();
        let p3 = p2 + e3.len();
        let p4 = p3 + e4.len();
        let p5 = p4 + e5.len();
        let p6 = p5 + e6.len();
        u32::lemma_round_trip(m.id, b, pos);
        String::lemma_round_trip(m.name, b, p1);
        String::lemma_round_trip(m.code, b, p2);
        Vec::<Key>::lemma_round_trip(m.storages, b, p3);
        u32::lemma_round_trip(m.max_field_index, b, p4);
        Vec::<Field>::lemma_round_trip(m.fields, b, p5);
        Vec::<u8>::lemma_round_trip(m.custom_data, b, p6);
    }

    proof fn lemma_parse_canonical(b: Seq<u8>, pos: int) {
        u32::lemma_parse_canonical(b, pos);
        let (id, p1) = u32::parse(b, pos).unwrap();
        String::lemma_parse_canonical(b, p1);
        let (name, p2) = String::parse(b, p1).unwrap();
        String::lemma_parse_canonical(b, p2);
        let (code, p3) = String::parse(b, p2).unwrap();
        Vec::<Key>::lemma_parse_canonical(b, p3);
        let (storages, p4) = Vec::<Key>::parse(b, p3).unwrap();
        u32::lemma_parse_canonical(b, p4);
        let (max, p5) = u32::parse(b, p4).unwrap();
        Vec::<Field>::lemma_parse_canonical(b, p5);
        let (fields, p6) = Vec::<Field>::parse(b, p5).unwrap();
        Vec::<u8>::lemma_parse_canonical(b, p6);
        let (custom, p7) = Vec::<u8>::parse(b, p6).unwrap();
        assert(b.subrange(pos, p7) =~= b.subrange(pos, p1) + b.subrange(p1, p2) + b.subrange(
            p2,
            p3,
        ) + b.subrange(p3, p4) + b.subrange(p4, p5) + b.subrange(p5, p6) + b.subrange(p6, p7));
    }

    fn is_framable(&self) -> (r: bool) {
        self.name.is_framable() && self.code.is_framable() && self.storages.is_framable()
            && self.fields.is_framable() && self.custom_data.is_framable()
    }

    fn encode_into(&self, out: &mut Vec<u8>) {
        self.id.encode_into(out);
        self.name.encode_into(out);
        self.code.encode_into(out);
        self.storages.encode_into(out);
        self.max_field_index.encode_into(out);
        self.fields.encode_into(out);
        self.custom_data.encode_into(out);
        assert(out@ =~= old(out)@ + Self::enc(self.model()));
    }

    fn decode_at(b: &[u8], pos: usize) -> (r: Option<(TemplateData, usize)>) {
        let (id, p1) = match u32::decode_at(b, pos) {
            Some(x) => x,
            None => return None,
        };
        let (name, p2) = match String::decode_at(b, p1) {
            Some(x) => x,
            None => return None,
        };
        let (code, p3) = match String::decode_at(b, p2) {
            Some(x) => x,
            None => return None,
        };
        let (storages, p4) = match Vec::<Key>::decode_at(b, p3) {
            Some(x) => x,
            None => return None,
        };
        let (max_field_index, p5) = match u32::decode_at(b, p4) {
            Some(x) => x,
            None => return None,
        };
        let (fields, p6) = match Vec::<Field>::decode_at(b, p5) {
            Some(x) => x,
            None => return None,
        };
        let (custom_data, p7) = match Vec::<u8>::decode_at(b, p6) {
            Some(x) => x,
            None => return None,
        };
        Some(
            (
                TemplateData { id, name, code, storages, max_field_index, fields, custom_data },
                p7,
            ),
        )
    }
}

/// The position of the first field with id `id`.
pub open spec fn find_field(fields: Seq<FieldModel>, id: u32) -> Option<int>
    decreases fields.len(),
{
    if fields.len() == 0 {
        None
    } else if fields[0].id == id {
        Some(0)
    } else {
        match find_field(fields.drop_first(), id) {
            Some(i) => Some(i + 1),
            None => None,
        }
    }
}

/// The field every new schema starts with: a text field for its name.
pub open spec fn seed_field() -> FieldModel {
    FieldModel {
        id: 1,
        params: FieldParamsModel {
            field_type: TypeModel::Str,
            name: "Name"@,
            code: "name"@,
            construct_client: true,
            construct_server: false,
        },
    }
}

/// The record that `create` stores for a new schema.
pub open spec fn new_template(id: u32, storage: Seq<u8>) -> TemplateModel {
    TemplateModel {
        id,
        name: "New template"@,
        code: "newTemplate"@,
        storages: seq![storage],
        max_field_index: 10,
        fields: seq![seed_field()],
        custom_data: Seq::empty(),
    }
}

/// The outcome of `create`: its result, then the bytes of the tenant slot,
/// the schema slot, the instance registry and the tenant's schema registry.
pub open spec fn create_effect(
    project_key: Seq<u8>,
    project: Seq<u8>,
    template_key: Seq<u8>,
    template: Seq<u8>,
    storage_key: Seq<u8>,
    storage: Seq<u8>,
    templates: Seq<u8>,
) -> (Result<(), StoreError>, Seq<u8>, Seq<u8>, Seq<u8>, Seq<u8>) {
    let (r1, p1) = uniq_id_effect(project);
    match r1 {
        Err(e) => (Err(e), p1, template, storage, templates),
        Ok(id) => {
            let (r2, t2) = initialize_effect(template, project_key);
            if r2 is Err {
                (r2, p1, t2, storage, templates)
            } else {
                let (r3, t3) = store_effect::<TemplateData>(t2, new_template(id, storage_key));
                if r3 is Err {
                    (r3, p1, t3, storage, templates)
                } else {
                    let (r4, s4) = assign_effect(project_key, storage, template_key);
                    if r4 is Err {
                        (r4, p1, t3, s4, templates)
                    } else {
                        let (r5, l5) = add_effect(templates, template_key);
                        (r5, p1, t3, s4, l5)
                    }
                }
            }
        },
    }
}

/// The outcome of `add_field`: the new field's id and the schema slot's bytes.
pub open spec fn add_field_effect(data: Seq<u8>, params: FieldParamsModel) -> (
    Result<u32, StoreError>,
    Seq<u8>,
) {
    match payload_record::<TemplateData>(data) {
        Some(t) => if t.max_field_index == u32::MAX {
            (Err(StoreError::ArithmeticOverflow), data)
        } else {
            let id = (t.max_field_index + 1) as u32;
            let (r, d) = store_effect::<TemplateData>(
                data,
                TemplateModel {
                    max_field_index: id,
                    fields: t.fields.push(FieldModel { id, params }),
                    ..t
                },
            );
            match r {
                Ok(()) => (Ok(id), d),
                Err(e) => (Err(e), d),
            }
        },
        None => (Err(StoreError::DecodeError), data),
    }
}

/// The outcome of `delete_field`.
pub open spec fn delete_field_effect(data: Seq<u8>, field_id: u32) -> (
    Result<(), StoreError>,
    Seq<u8>,
) {
    match payload_record::<TemplateData>(data) {
        Some(t) => match find_field(t.fields, field_id) {
            Some(i) => store_effect::<TemplateData>(
                data,
                TemplateModel { fields: t.fields.remove(i), ..t },
            ),
            None => (Err(StoreError::FieldNotFound), data),
        },
        None => (Err(StoreError::DecodeError), data),
    }
}

/// The outcome of `change_name`.
pub open spec fn change_name_effect(data: Seq<u8>, name: Seq<char>) -> (
    Result<(), StoreError>,
    Seq<u8>,
) {
    match payload_record::<TemplateData>(data) {
        Some(t) => store_effect::<TemplateData>(data, TemplateModel { name, ..t }),
        None => (Err(StoreError::DecodeError), data),
    }
}

/// The outcome of `change_code`.
pub open spec fn change_code_effect(data: Seq<u8>, code: Seq<char>) -> (
    Result<(), StoreError>,
    Seq<u8>,
) {
    match payload_record::<TemplateData>(data) {
        Some(t) => store_effect::<TemplateData>(data, TemplateModel { code, ..t }),
        None => (Err(StoreError::DecodeError), data),
    }
}

/// Creates a schema in `template` for the tenant in `project`.
///
/// Issues the schema's id from the tenant, stamps the schema's header for
/// the tenant, stores a schema with one text field for its name and
/// `storage` as its instance registry, makes `storage` an empty registry of
/// this schema and lists the schema in the tenant's schema registry
/// `templates`. Fails, at the first step that fails, as those steps do.
pub fn create(
    project: &mut Slot,
    template: &mut Slot,
    storage: &mut Slot,
    templates: &mut Slot,
) -> (r: Result<(), StoreError>)
    ensures
        final(project).key == old(project).key,
        final(template).key == old(template).key,
        final(storage).key == old(storage).key,
        final(templates).key == old(templates).key,
        (
            r,
            final(project).data@,
            final(template).data@,
            final(storage).data@,
            final(templates).data@,
        ) == create_effect(
            old(project).key@,
            old(project).data@,
            old(template).key@,
            old(template).data@,
            old(storage).key@,
            old(storage).data@,
            old(templates).data@,
        ),
{
    let id = get_uniq_id(project)?;
    let project_key = project.key;
    let template_key = template.key;
    initialize(&project_key, template)?;
    let mut storages: Vec<Key> = Vec::new();
    storages.push(storage.key);
    let mut fields: Vec<Field> = Vec::new();
    fields.push(
        Field {
            id: 1,
            params: FieldParams {
                field_type: SolceryType::SString,
                name: String::from_str("Name"),
                code: String::from_str("name"),
                construct_client: true,
                construct_server: false,
            },
        },
    );
    let record = TemplateData {
        id,
        name: String::from_str("New template"),
        code: String::from_str("newTemplate"),
        storages,
        max_field_index: 10,
        fields,
        custom_data: Vec::new(),
    };
    assert(record.model() =~= new_template(id, storage.key@)) by {
        assert(record.storages.model() =~= seq![storage.key@]);
        assert(record.fields.model() =~= seq![seed_field()]);
        assert(record.custom_data.model() =~= Seq::<u8>::empty());
    }
    store(template, &record)?;
    assign(&project_key, storage, &template_key)?;
    crate::storage::add(templates, &template_key)
}

/// Adds a field described by `field_params` to the schema in `template`
/// and returns its id, one more than the largest id issued before.
///
/// Fails with `DecodeError` when the slot holds no schema, with
/// `ArithmeticOverflow` when every id has been issued, and with
/// `BufferTooSmall` when the longer schema does not fit.
pub fn add_field(template: &mut Slot, field_params: FieldParams) -> (r: Result<u32, StoreError>)
    ensures
        final(template).key == old(template).key,
        (r, final(template).data@) == add_field_effect(old(template).data@, field_params.model()),
{
    let mut record = load::<TemplateData>(template)?;
    if record.max_field_index == u32::MAX {
        return Err(StoreError::ArithmeticOverflow);
    }
    let id = record.max_field_index + 1;
    record.max_field_index = id;
    let ghost before = record.fields.model();
    let ghost params = field_params.model();
    record.fields.push(Field { id, params: field_params });
    assert(record.fields.model() =~= before.push(FieldModel { id, params }));
    store(template, &record)?;
    Ok(id)
}

/// Removes the first field with id `field_id` from the schema in
/// `template`; its id is not issued again.
///
/// Fails with `DecodeError` when the slot holds no schema and with
/// `FieldNotFound` when no field has that id.
pub fn delete_field(template: &mut Slot, field_id: u32) -> (r: Result<(), StoreError>)
    ensures
        final(template).key == old(template).key,
        (r, final(template).data@) == delete_field_effect(old(template).data@, field_id),
{
    let mut record = load::<TemplateData>(template)?;
    let ghost before = record.fields.model();
    let ghost m0 = record.model();
    let mut i: usize = 0;
    while i < record.fields.len()
        invariant
            i <= record.fields@.len(),
            before == record.fields.model(),
            m0 == record.model(),
            *template == *old(template),
            payload_record::<TemplateData>(template.data@) == Some(m0),
            forall|j: int| 0 <= j < i ==> before[j].id != field_id,
        decreases record.fields@.len() - i,
    {
        assert(before[i as int] == record.fields@[i as int].model());
        if record.fields[i].id == field_id {
            proof {
                lemma_find_field_at(before, field_id, i as int);
            }
            record.fields.remove(i);
            assert(record.fields.model() =~= before.remove(i as int));
            return store(template, &record);
        }
        i += 1;
    }
    proof {
        lemma_find_field_absent(before, field_id);
    }
    Err(StoreError::FieldNotFound)
}

/// Renames the schema in `template`.
///
/// Fails with `DecodeError` when the slot holds no schema and with
/// `BufferTooSmall` when the renamed schema does not fit.
pub fn change_name(template: &mut Slot, name: String) -> (r: Result<(), StoreError>)
    ensures
        final(template).key == old(template).key,
        (r, final(template).data@) == change_name_effect(old(template).data@, name@),
{
    let mut record = load::<TemplateData>(template)?;
    record.name = name;
    store(template, &record)
}

/// Sets the code of the schema in `template`.
///
/// Fails with `DecodeError` when the slot holds no schema and with
/// `BufferTooSmall` when the changed schema does not fit.
pub fn change_code(template: &mut Slot, code: String) -> (r: Result<(), StoreError>)
    ensures
        final(template).key == old(template).key,
        (r, final(template).data@) == change_code_effect(old(template).data@, code@),
{
    let mut record = load::<TemplateData>(template)?;
    record.code = code;
    store(template, &record)
}

/// Replaces the whole schema in `template` with `record`, as given.
///
/// Fails with `BufferTooSmall` when the record does not fit.
pub fn replace(template: &mut Slot, record: &TemplateData) -> (r: Result<(), StoreError>)
    ensures
        final(template).key == old(template).key,
        (r, final(template).data@) == store_effect::<TemplateData>(
            old(template).data@,
            record.model(),
        ),
{
    store(template, record)
}

/// Reads the schema held in `template`.
pub fn read(template: &Slot) -> (r: Result<TemplateData, StoreError>)
    ensures
        match r {
            Ok(t) => payload_record::<TemplateData>(template.data@) == Some(t.model()),
            Err(e) => e == StoreError::DecodeError && payload_record::<TemplateData>(
                template.data@,
            ) is None,
        },
{
    load::<TemplateData>(template)
}

proof fn lemma_find_field_at(fs: Seq<FieldModel>, id: u32, i: int)
    requires
        0 <= i < fs.len(),
        fs[i].id == id,
        forall|j: int| 0 <= j < i ==> fs[j].id != id,
    ensures
        find_field(fs, id) == Some(i),
    decreases fs.len(),
{
    if i > 0 {
        let t = fs.drop_first();
        assert forall|j: int| 0 <= j < i - 1 implies t[j].id != id by {
            assert(t[j] == fs[j + 1]);
        }
        lemma_find_field_at(t, id, i - 1);
    }
}

proof fn lemma_find_field_absent(fs: Seq<FieldModel>, id: u32)
    requires
        forall|j: int| 0 <= j < fs.len() ==> fs[j].id != id,
    ensures
        find_field(fs, id) is None,
    decreases fs.len(),
{
    if fs.len() > 0 {
        let t = fs.drop_first();
        assert forall|j: int| 0 <= j < t.len() implies t[j].id != id by {
            assert(t[j] == fs[j + 1]);
        }
        lemma_find_field_absent(t, id);
    }
}

/// Adding a field and then deleting the field with the id it returned
/// leaves the schema's fields as they were and keeps the raised
/// `max_field_index`, for a schema whose field ids do not exceed its
/// `max_field_index`.
pub proof fn add_then_delete_field(data: Seq<u8>, params: FieldParamsModel)
    requires
        payload_record::<TemplateData>(data) matches Some(t) && forall|i: int|
            0 <= i < t.fields.len() ==> #[trigger] t.fields[i].id <= t.max_field_index,
        add_field_effect(data, params).0 is Ok,
    ensures
        ({
            let t = payload_record::<TemplateData>(data).unwrap();
            let id = add_field_effect(data, params).0.unwrap();
            let (r, d) = delete_field_effect(add_field_effect(data, params).1, id);
            &&& id == t.max_field_index + 1
            &&& r is Ok
            &&& payload_record::<TemplateData>(d) == Some(
                TemplateModel { max_field_index: id, ..t },
            )
        }),
{
    let t = payload_record::<TemplateData>(data).unwrap();
    let id = (t.max_field_index + 1) as u32;
    let added = FieldModel { id, params };
    let grown = TemplateModel {
        max_field_index: id,
        fields: t.fields.push(added),
        ..t
    };
    let kept = TemplateModel { max_field_index: id, ..t };
    lemma_store_load::<TemplateData>(data, grown);
    let d1 = add_field_effect(data, params).1;
    assert forall|j: int| 0 <= j < t.fields.len() implies grown.fields[j].id != id by {
        assert(grown.fields[j] == t.fields[j]);
    }
    lemma_find_field_at(grown.fields, id, t.fields.len() as int);
    assert(grown.fields.remove(t.fields.len() as int) =~= t.fields);
    assert forall|i: int| 0 <= i < t.fields.len() implies Field::framable(#[trigger] t.fields[i]) by {
        assert(grown.fields[i] == t.fields[i]);
    }
    assert(TemplateData::framable(kept));
    assert(TemplateData::enc(kept).len() <= TemplateData::enc(grown).len()) by {
        lemma_auto_spec_u32_to_from_le_bytes();
        assert(grown.fields.drop_last() =~= t.fields);
        assert(enc_items::<Field>(grown.fields) == enc_items::<Field>(t.fields) + Field::enc(added));
    }
    lemma_store_fits::<TemplateData>(d1, grown, kept);
    lemma_store_load::<TemplateData>(d1, kept);
}

} // verus!
