//! The schema registry: node and edge types by name.

use vstd::prelude::*;
use crate::ast::{DataType, EdgeTypeDef, FieldDef, FieldView, NodeTypeDef, edge_type_view, fields_view, node_type_view};
use crate::strmap::StrMap;
use crate::bm25::push_char;

verus! {

/// Errors of schema operations.
#[derive(Debug, Clone, PartialEq, Eq)]
pub enum SchemaError {
    LockError,
    TypeAlreadyExists(String),
    TypeNotFound(String),
    UnknownNodeType(String),
    FieldNotFound(String),
    TypeInUse(String),
    TypeMismatch { field: String, expected: String, actual: String },
    DimensionMismatch { field: String, expected: u32, actual: u32 },
    InvalidDimension(String),
    MultiplePrimaryKeys,
}

/// Abstract value of a [`SchemaError`].
pub enum SchemaErrorView {
    LockError,
    TypeAlreadyExists(Seq<char>),
    TypeNotFound(Seq<char>),
    UnknownNodeType(Seq<char>),
    FieldNotFound(Seq<char>),
    TypeInUse(Seq<char>),
    TypeMismatch { field: Seq<char>, expected: Seq<char>, actual: Seq<char> },
    DimensionMismatch { field: Seq<char>, expected: u32, actual: u32 },
    InvalidDimension(Seq<char>),
    MultiplePrimaryKeys,
}

impl View for SchemaError {
    type V = SchemaErrorView;

    open spec fn view(&self) -> SchemaErrorView {
        match self {
            SchemaError::LockError => SchemaErrorView::LockError,
            SchemaError::TypeAlreadyExists(n) => SchemaErrorView::TypeAlreadyExists(n@),
            SchemaError::TypeNotFound(n) => SchemaErrorView::TypeNotFound(n@),
            SchemaError::UnknownNodeType(n) => SchemaErrorView::UnknownNodeType(n@),
            SchemaError::FieldNotFound(n) => SchemaErrorView::FieldNotFound(n@),
            SchemaError::TypeInUse(n) => SchemaErrorView::TypeInUse(n@),
            SchemaError::TypeMismatch { field, expected, actual } =>
                SchemaErrorView::TypeMismatch { field: field@, expected: expected@, actual: actual@ },
            SchemaError::DimensionMismatch { field, expected, actual } =>
                SchemaErrorView::DimensionMismatch { field: field@, expected: *expected, actual: *actual },
            SchemaError::InvalidDimension(n) => SchemaErrorView::InvalidDimension(n@),
            SchemaError::MultiplePrimaryKeys => SchemaErrorView::MultiplePrimaryKeys,
        }
    }
}

/// The decimal digits of `n`.
pub open spec fn decimal_digits(n: nat) -> Seq<char>
    decreases n,
{
    if n < 10 {
        seq![(('0' as nat) + n) as char]
    } else {
        decimal_digits(n / 10).push((('0' as nat) + n % 10) as char)
    }
}

/// The character of the decimal digit `d`.
fn digit_char(d: u64) -> (c: char)
    requires
        d < 10,
    ensures
        c == (('0' as nat) + d) as char,
{
    if d == 0 { '0' } else if d == 1 { '1' } else if d == 2 { '2' } else if d == 3 { '3' }
    else if d == 4 { '4' } else if d == 5 { '5' } else if d == 6 { '6' } else if d == 7 { '7' }
    else if d == 8 { '8' } else { '9' }
}

/// Writes `n` in decimal.
pub fn u64_to_decimal(n: u64) -> (r: String)
    ensures
        r@ == decimal_digits(n as nat),
{
    // least significant digit first
    let mut digits: Vec<char> = Vec::new();
    let mut m: u64 = n;
    while m >= 10
        invariant
            decimal_digits(n as nat) == decimal_digits(m as nat) + digits@.reverse(),
        decreases m,
    {
        let c = digit_char(m % 10);
        let ghost before = digits@;
        digits.push(c);
        proof {
            assert(decimal_digits(m as nat) == decimal_digits((m / 10) as nat).push(c));
            assert(digits@.reverse() =~= seq![c] + before.reverse());
            assert(decimal_digits(n as nat) =~= decimal_digits((m / 10) as nat) + digits@.reverse());
        }
        m = m / 10;
    }
    let c = digit_char(m);
    let ghost before = digits@;
    digits.push(c);
    proof {
        assert(decimal_digits(m as nat) == seq![c]);
        assert(digits@.reverse() =~= seq![c] + before.reverse());
        assert(decimal_digits(n as nat) =~= digits@.reverse());
    }
    let mut s = String::new();
    let mut i: usize = digits.len();
    while i > 0
        invariant
            i <= digits@.len(),
            s@ == digits@.reverse().take(digits@.len() - i),
        decreases i,
    {
        i = i - 1;
        push_char(&mut s, digits[i]);
        proof {
            assert(digits@.reverse()[digits@.len() - 1 - i] == digits@[i as int]);
            assert(digits@.reverse().take(digits@.len() - i) =~= digits@.reverse().take(digits@.len() - 1 - i).push(digits@[i as int]));
        }
    }
    proof {
        assert(digits@.reverse().take(digits@.len() as int) =~= digits@.reverse());
    }
    s
}

/// The message of an error.
pub open spec fn error_message(e: SchemaErrorView) -> Seq<char> {
    match e {
        SchemaErrorView::LockError => "Failed to acquire lock"@,
        SchemaErrorView::TypeAlreadyExists(n) => "Type '"@ + n + "' already exists"@,
        SchemaErrorView::TypeNotFound(n) => "Type '"@ + n + "' not found"@,
        SchemaErrorView::UnknownNodeType(n) => "Unknown node type '"@ + n + "'"@,
        SchemaErrorView::FieldNotFound(n) => "Field '"@ + n + "' not found"@,
        SchemaErrorView::TypeInUse(n) => "Type '"@ + n + "' is in use by edges"@,
        SchemaErrorView::TypeMismatch { field, expected, actual } =>
            "Field '"@ + field + "': expected "@ + expected + ", got "@ + actual,
        SchemaErrorView::DimensionMismatch { field, expected, actual } =>
            "Field '"@ + field + "': expected dimension "@ + decimal_digits(expected as nat) + ", got "@
                + decimal_digits(actual as nat),
        SchemaErrorView::InvalidDimension(n) => "Invalid dimension for field '"@ + n + "'"@,
        SchemaErrorView::MultiplePrimaryKeys => "Multiple primary keys not allowed"@,
    }
}

pub(crate) fn cat(a: String, b: &str) -> (r: String)
    ensures
        r@ == a@ + b@,
{
    let mut a = a;
    a.append(b);
    a
}

impl SchemaError {
    /// The error's message.
    pub fn message(&self) -> (m: String)
        ensures
            m@ == error_message(self@),
    {
        match self {
            SchemaError::LockError => String::from_str("Failed to acquire lock"),
            SchemaError::TypeAlreadyExists(n) => cat(cat(String::from_str("Type '"), n.as_str()), "' already exists"),
            SchemaError::TypeNotFound(n) => cat(cat(String::from_str("Type '"), n.as_str()), "' not found"),
            SchemaError::UnknownNodeType(n) => cat(cat(String::from_str("Unknown node type '"), n.as_str()), "'"),
            SchemaError::FieldNotFound(n) => cat(cat(String::from_str("Field '"), n.as_str()), "' not found"),
            SchemaError::TypeInUse(n) => cat(cat(String::from_str("Type '"), n.as_str()), "' is in use by edges"),
            SchemaError::TypeMismatch { field, expected, actual } => {
                let m = cat(cat(String::from_str("Field '"), field.as_str()), "': expected ");
                cat(cat(cat(m, expected.as_str()), ", got "), actual.as_str())
            },
            SchemaError::DimensionMismatch { field, expected, actual } => {
                let m = cat(cat(String::from_str("Field '"), field.as_str()), "': expected dimension ");
                let e = u64_to_decimal(*expected as u64);
                let a = u64_to_decimal(*actual as u64);
                cat(cat(cat(m, e.as_str()), ", got "), a.as_str())
            },
            SchemaError::InvalidDimension(n) => cat(cat(String::from_str("Invalid dimension for field '"), n.as_str()), "'"),
            SchemaError::MultiplePrimaryKeys => String::from_str("Multiple primary keys not allowed"),
        }
    }
}

/// The position of the first field of `fs` with a zero-dimension vector
/// type, if any.
pub open spec fn first_zero_vector(fs: Seq<FieldView>) -> Option<int> {
    if exists|i: int| 0 <= i < fs.len() && #[trigger] fs[i].data_type == DataType::Vector(0) {
        Some(choose|i: int| 0 <= i < fs.len() && fs[i].data_type == DataType::Vector(0)
            && forall|j: int| 0 <= j < i ==> #[trigger] fs[j].data_type != DataType::Vector(0))
    } else {
        None
    }
}

/// How many fields are primary keys.
pub open spec fn primary_key_count(fs: Seq<FieldView>) -> nat
    decreases fs.len(),
{
    if fs.len() == 0 {
        0
    } else {
        primary_key_count(fs.drop_last()) + if fs.last().is_primary_key { 1nat } else { 0nat }
    }
}

/// Whether some field is named `name`; the first such is the one that counts.
pub open spec fn first_field_named(fs: Seq<FieldView>, name: Seq<char>) -> Option<int> {
    if exists|i: int| 0 <= i < fs.len() && #[trigger] fs[i].name == name {
        Some(choose|i: int| 0 <= i < fs.len() && fs[i].name == name
            && forall|j: int| 0 <= j < i ==> #[trigger] fs[j].name != name)
    } else {
        None
    }
}

/// What the `{:?}` form of a non-vector data type is.
pub open spec fn data_type_name(t: DataType) -> Seq<char> {
    match t {
        DataType::Int => "Int"@,
        DataType::Float => "Float"@,
        DataType::Bool => "Bool"@,
        DataType::Text => "Text"@,
        DataType::Timestamp => "Timestamp"@,
        DataType::Vector(_) => "Vector"@,
    }
}

/// Registry of node and edge types.
pub struct SchemaRegistry {
    nodes: StrMap<NodeTypeDef>,
    edges: StrMap<EdgeTypeDef>,
}

impl SchemaRegistry {
    /// Node types by name.
    pub closed spec fn node_types(&self) -> Map<Seq<char>, (Seq<char>, Seq<FieldView>)> {
        self.nodes.spec_map().map_values(|d: NodeTypeDef| node_type_view(d))
    }

    /// Edge types by name.
    pub closed spec fn edge_types(&self) -> Map<Seq<char>, (Seq<char>, Seq<char>, Seq<char>, Seq<FieldView>)> {
        self.edges.spec_map().map_values(|d: EdgeTypeDef| edge_type_view(d))
    }

    /// An empty registry.
    pub fn new() -> (r: Self)
        ensures
            r.node_types() == Map::<Seq<char>, (Seq<char>, Seq<FieldView>)>::empty(),
            r.edge_types() == Map::<Seq<char>, (Seq<char>, Seq<char>, Seq<char>, Seq<FieldView>)>::empty(),
    {
        let r = SchemaRegistry { nodes: StrMap::new(), edges: StrMap::new() };
        assert(r.node_types() =~= Map::<Seq<char>, (Seq<char>, Seq<FieldView>)>::empty());
        assert(r.edge_types() =~= Map::<Seq<char>, (Seq<char>, Seq<char>, Seq<char>, Seq<FieldView>)>::empty());
        r
    }

    /// Checks the fields of a new node type: the first vector field of
    /// dimension 0 is an error; more than one primary key is an error.
    pub fn validate_node_fields(fields: &[FieldDef]) -> (r: Result<(), SchemaError>)
        ensures
            ({
                let fs = fields_view(fields@);
                match first_zero_vector(fs) {
                    Some(i) => r matches Err(e) && e@ == SchemaErrorView::InvalidDimension(fs[i].name),
                    None => if primary_key_count(fs) > 1 {
                        r matches Err(e) && e@ == SchemaErrorView::MultiplePrimaryKeys
                    } else {
                        r is Ok
                    },
                }
            }),
    {
        let ghost fs = fields_view(fields@);
        let mut pk_count: usize = 0;
        let mut i: usize = 0;
        while i < fields.len()
            invariant
                fs == fields_view(fields@),
                i <= fields@.len(),
                pk_count == primary_key_count(fs.take(i as int)),
                pk_count <= i,
                forall|j: int| 0 <= j < i ==> #[trigger] fs[j].data_type != DataType::Vector(0),
            decreases fields@.len() - i,
        {
            let f = &fields[i];
            proof {
                assert(fs.take(i + 1).drop_last() =~= fs.take(i as int));
                assert(fs[i as int] == f@);
            }
            if f.is_primary_key {
                pk_count = pk_count + 1;
            }
            match f.data_type {
                DataType::Vector(dim) => {
                    if dim == 0 {
                        proof {
                            assert(first_zero_vector(fs) == Some(i as int)) by {
                                let k = choose|k: int| 0 <= k < fs.len() && fs[k].data_type == DataType::Vector(0)
                                    && forall|j: int| 0 <= j < k ==> #[trigger] fs[j].data_type != DataType::Vector(0);
                                if k < i {
                                } else if k > i {
                                    assert(fs[i as int].data_type == DataType::Vector(0));
                                }
                            }
                        }
                        return Err(SchemaError::InvalidDimension(f.name.clone()));
                    }
                },
                _ => {},
            }
            i = i + 1;
        }
        proof {
            assert(fs.take(fields@.len() as int) =~= fs);
            assert(first_zero_vector(fs) is None);
        }
        if pk_count > 1 {
            return Err(SchemaError::MultiplePrimaryKeys);
        }
        Ok(())
    }

    /// Registers a node type: fails with `TypeAlreadyExists` when the name is
    /// taken, or with the field check's error (see
    /// [`SchemaRegistry::validate_node_fields`]); else adds it.
    pub fn create_node_type(&mut self, def: NodeTypeDef) -> (r: Result<(), SchemaError>)
        ensures
            final(self).edge_types() == old(self).edge_types(),
            old(self).node_types().contains_key(def.name@) ==> (r matches Err(e)
                && e@ == SchemaErrorView::TypeAlreadyExists(def.name@)
                && final(self).node_types() == old(self).node_types()),
            !old(self).node_types().contains_key(def.name@) ==> {
                let fs = fields_view(def.fields@);
                &&& first_zero_vector(fs) is Some ==> (r matches Err(e)
                    && e@ == SchemaErrorView::InvalidDimension(fs[first_zero_vector(fs).unwrap()].name))
                &&& first_zero_vector(fs) is None && primary_key_count(fs) > 1 ==> (r matches Err(e)
                    && e@ == SchemaErrorView::MultiplePrimaryKeys)
                &&& r is Err ==> final(self).node_types() == old(self).node_types()
                &&& r is Ok <==> (first_zero_vector(fs) is None && primary_key_count(fs) <= 1)
                &&& r is Ok ==> final(self).node_types() == old(self).node_types().insert(def.name@, node_type_view(def))
            },
    {
        if self.nodes.contains_key(def.name.as_str()) {
            return Err(SchemaError::TypeAlreadyExists(def.name.clone()));
        }
        match Self::validate_node_fields(def.fields.as_slice()) {
            Err(e) => Err(e),
            Ok(()) => {
                let name = def.name.clone();
                self.nodes.insert(name, def);
                proof {
                    assert(self.node_types() =~= old(self).node_types().insert(def.name@, node_type_view(def)));
                }
                Ok(())
            },
        }
    }

    /// Registers an edge type: fails with `TypeAlreadyExists` when the name
    /// is taken, then with `UnknownNodeType` for an unknown source, then for
    /// an unknown target; else adds it.
    pub fn create_edge_type(&mut self, def: EdgeTypeDef) -> (r: Result<(), SchemaError>)
        ensures
            final(self).node_types() == old(self).node_types(),
            ({
                let nt = old(self).node_types();
                if old(self).edge_types().contains_key(def.name@) {
                    r matches Err(e) && e@ == SchemaErrorView::TypeAlreadyExists(def.name@)
                } else if !nt.contains_key(def.from@) {
                    r matches Err(e) && e@ == SchemaErrorView::UnknownNodeType(def.from@)
                } else if !nt.contains_key(def.to@) {
                    r matches Err(e) && e@ == SchemaErrorView::UnknownNodeType(def.to@)
                } else {
                    r is Ok
                }
            }),
            r is Err ==> final(self).edge_types() == old(self).edge_types(),
            r is Ok ==> final(self).edge_types() == old(self).edge_types().insert(def.name@, edge_type_view(def)),
    {
        if self.edges.contains_key(def.name.as_str()) {
            return Err(SchemaError::TypeAlreadyExists(def.name.clone()));
        }
        if !self.nodes.contains_key(def.from.as_str()) {
            return Err(SchemaError::UnknownNodeType(def.from.clone()));
        }
        if !self.nodes.contains_key(def.to.as_str()) {
            return Err(SchemaError::UnknownNodeType(def.to.clone()));
        }
        let name = def.name.clone();
        self.edges.insert(name, def);
        proof {
            assert(self.edge_types() =~= old(self).edge_types().insert(def.name@, edge_type_view(def)));
        }
        Ok(())
    }

    /// Drops a node type: fails with `TypeNotFound` for an unknown name, or
    /// with `TypeInUse` when an edge type starts or ends at it.
    pub fn drop_node_type(&mut self, name: &str) -> (r: Result<(), SchemaError>)
        ensures
            final(self).edge_types() == old(self).edge_types(),
            ({
                let et = old(self).edge_types();
                if !old(self).node_types().contains_key(name@) {
                    r matches Err(e) && e@ == SchemaErrorView::TypeNotFound(name@)
                } else if exists|k: Seq<char>| #[trigger] et.contains_key(k) && (et[k].1 == name@ || et[k].2 == name@) {
                    r matches Err(e) && e@ == SchemaErrorView::TypeInUse(name@)
                } else {
                    r is Ok
                }
            }),
            r is Err ==> final(self).node_types() == old(self).node_types(),
            r is Ok ==> final(self).node_types() == old(self).node_types().remove(name@),
    {
        if !self.nodes.contains_key(name) {
            return Err(SchemaError::TypeNotFound(name.to_string()));
        }
        proof {
            assert(old(self).node_types().dom() =~= old(self).nodes.spec_map().dom());
        }
        let keys = self.edges.keys();
        let ns = name.to_string();
        proof {
            vstd::string::to_string_from_display_ensures_for_str(name, ns);
        }
        let mut i: usize = 0;
        while i < keys.len()
            invariant
                ns@ == name@,
                *self == *old(self),
                old(self).node_types().contains_key(name@),
                i <= keys@.len(),
                keys@.map_values(|s: String| s@).to_set() == self.edges.spec_map().dom(),
                forall|j: int| 0 <= j < i ==> {
                    let d = #[trigger] self.edges.spec_map()[keys@[j]@];
                    d.from@ != name@ && d.to@ != name@
                },
            decreases keys@.len() - i,
        {
            proof {
                assert(keys@.map_values(|s: String| s@)[i as int] == keys@[i as int]@);
                assert(self.edges.spec_map().dom().contains(keys@[i as int]@));
            }
            match self.edges.get(keys[i].as_str()) {
                Some(d) => {
                    if d.from == ns || d.to == ns {
                        proof {
                            let et = old(self).edge_types();
                            assert(et.contains_key(keys@[i as int]@));
                            assert(et[keys@[i as int]@] == edge_type_view(*d));
                            assert(d.from@ == name@ || d.to@ == name@);
                            let k = keys@[i as int]@;
                            assert(et.contains_key(k) && (et[k].1 == name@ || et[k].2 == name@));
                        }
                        return Err(SchemaError::TypeInUse(ns));
                    }
                },
                None => {},
            }
            i = i + 1;
        }
        proof {
            let et = old(self).edge_types();
            assert forall|k: Seq<char>| #[trigger] et.contains_key(k) implies !(et[k].1 == name@ || et[k].2 == name@) by {
                assert(keys@.map_values(|s: String| s@).to_set().contains(k));
                let kv = keys@.map_values(|s: String| s@);
                let j = choose|j: int| 0 <= j < kv.len() && #[trigger] kv[j] == k;
                assert(keys@[j]@ == k);
            }
        }
        self.nodes.remove(name);
        proof {
            assert(self.node_types() =~= old(self).node_types().remove(name@));
        }
        Ok(())
    }

    /// Drops an edge type; fails with `TypeNotFound` for an unknown name.
    pub fn drop_edge_type(&mut self, name: &str) -> (r: Result<(), SchemaError>)
        ensures
            final(self).node_types() == old(self).node_types(),
            old(self).edge_types().contains_key(name@) <==> r is Ok,
            r matches Err(e) ==> e@ == SchemaErrorView::TypeNotFound(name@)
                && final(self).edge_types() == old(self).edge_types(),
            r is Ok ==> final(self).edge_types() == old(self).edge_types().remove(name@),
    {
        if !self.edges.contains_key(name) {
            return Err(SchemaError::TypeNotFound(name.to_string()));
        }
        self.edges.remove(name);
        proof {
            assert(self.edge_types() =~= old(self).edge_types().remove(name@));
        }
        Ok(())
    }

    /// The node type `name`, if registered.
    pub fn get_node_type(&self, name: &str) -> (r: Result<Option<NodeTypeDef>, SchemaError>)
        ensures
            r matches Ok(o) && match o {
                Some(d) => self.node_types().contains_key(name@) && node_type_view(d) == self.node_types()[name@],
                None => !self.node_types().contains_key(name@),
            },
    {
        match self.nodes.get(name) {
            Some(d) => Ok(Some(d.clone_def())),
            None => Ok(None),
        }
    }

    /// The edge type `name`, if registered.
    pub fn get_edge_type(&self, name: &str) -> (r: Result<Option<EdgeTypeDef>, SchemaError>)
        ensures
            r matches Ok(o) && match o {
                Some(d) => self.edge_types().contains_key(name@) && edge_type_view(d) == self.edge_types()[name@],
                None => !self.edge_types().contains_key(name@),
            },
    {
        match self.edges.get(name) {
            Some(d) => Ok(Some(d.clone_def())),
            None => Ok(None),
        }
    }

    /// The type of field `field_name` of node type `node_type` (the first
    /// field of that name): `UnknownNodeType` for an unknown type,
    /// `FieldNotFound` for an unknown field.
    pub fn validate_field(&self, node_type: &str, field_name: &str) -> (r: Result<DataType, SchemaError>)
        ensures
            !self.node_types().contains_key(node_type@) ==> (r matches Err(e)
                && e@ == SchemaErrorView::UnknownNodeType(node_type@)),
            self.node_types().contains_key(node_type@) ==> {
                let fs = self.node_types()[node_type@].1;
                match first_field_named(fs, field_name@) {
                    Some(i) => r == Ok::<DataType, SchemaError>(fs[i].data_type),
                    None => r matches Err(e) && e@ == SchemaErrorView::FieldNotFound(field_name@),
                }
            },
    {
        let fname = field_name.to_string();
        proof {
            vstd::string::to_string_from_display_ensures_for_str(field_name, fname);
        }
        match self.nodes.get(node_type) {
            None => Err(SchemaError::UnknownNodeType(node_type.to_string())),
            Some(def) => {
                let ghost fs = fields_view(def.fields@);
                proof {
                    assert(self.node_types()[node_type@] == node_type_view(*def));
                }
                let mut i: usize = 0;
                while i < def.fields.len()
                    invariant
                        fs == fields_view(def.fields@),
                        self.node_types().contains_key(node_type@),
                        self.node_types()[node_type@].1 == fs,
                        fname@ == field_name@,
                        i <= def.fields@.len(),
                        forall|j: int| 0 <= j < i ==> #[trigger] fs[j].name != field_name@,
                    decreases def.fields@.len() - i,
                {
                    proof {
                        assert(fs[i as int] == def.fields@[i as int]@);
                    }
                    if def.fields[i].name == fname {
                        proof {
                            assert(first_field_named(fs, field_name@) == Some(i as int)) by {
                                let k = choose|k: int| 0 <= k < fs.len() && fs[k].name == field_name@
                                    && forall|j: int| 0 <= j < k ==> #[trigger] fs[j].name != field_name@;
                                if k > i {
                                    assert(fs[i as int].name == field_name@);
                                }
                            }
                        }
                        return Ok(def.fields[i].data_type);
                    }
                    i = i + 1;
                }
                Err(SchemaError::FieldNotFound(fname))
            },
        }
    }

    /// The dimension of vector field `field_name` of `node_type`: the field
    /// check's error for an unknown type or field, `TypeMismatch` (expected
    /// `VECTOR`) for a field of another type, `DimensionMismatch` when a
    /// dimension is expected and differs.
    pub fn validate_vector_field(&self, node_type: &str, field_name: &str, expected_dim: Option<u32>)
        -> (r: Result<u32, SchemaError>)
        ensures
            !self.node_types().contains_key(node_type@) ==> (r matches Err(e)
                && e@ == SchemaErrorView::UnknownNodeType(node_type@)),
            self.node_types().contains_key(node_type@) ==> {
                let fs = self.node_types()[node_type@].1;
                match first_field_named(fs, field_name@) {
                    None => r matches Err(e) && e@ == SchemaErrorView::FieldNotFound(field_name@),
                    Some(i) => match fs[i].data_type {
                        DataType::Vector(dim) => match expected_dim {
                            Some(x) => if x != dim {
                                r matches Err(e) && e@ == SchemaErrorView::DimensionMismatch {
                                    field: field_name@, expected: x, actual: dim }
                            } else {
                                r == Ok::<u32, SchemaError>(dim)
                            },
                            None => r == Ok::<u32, SchemaError>(dim),
                        },
                        t => r matches Err(e) && e@ == SchemaErrorView::TypeMismatch {
                            field: field_name@, expected: "VECTOR"@, actual: data_type_name(t) },
                    },
                }
            },
    {
        let data_type = match self.validate_field(node_type, field_name) {
            Ok(t) => t,
            Err(e) => {
                return Err(e);
            },
        };
        match data_type {
            DataType::Vector(dim) => {
                if let Some(expected) = expected_dim {
                    if dim != expected {
                        return Err(SchemaError::DimensionMismatch { field: field_name.to_string(), expected, actual: dim });
                    }
                }
                Ok(dim)
            },
            _ => {
                let actual = match data_type {
                    DataType::Int => String::from_str("Int"),
                    DataType::Float => String::from_str("Float"),
                    DataType::Bool => String::from_str("Bool"),
                    DataType::Text => String::from_str("Text"),
                    DataType::Timestamp => String::from_str("Timestamp"),
                    DataType::Vector(_) => String::from_str("Vector"),
                };
                Err(SchemaError::TypeMismatch {
                    field: field_name.to_string(),
                    expected: String::from_str("VECTOR"),
                    actual,
                })
            },
        }
    }

    /// The registered node type names, each once.
    pub fn list_node_types(&self) -> (r: Result<Vec<String>, SchemaError>)
        ensures
            r matches Ok(v) && v@.map_values(|s: String| s@).no_duplicates()
                && v@.map_values(|s: String| s@).to_set() == self.node_types().dom(),
    {
        let k = self.nodes.keys();
        proof {
            assert(self.node_types().dom() =~= self.nodes.spec_map().dom());
        }
        Ok(k)
    }

    /// The registered edge type names, each once.
    pub fn list_edge_types(&self) -> (r: Result<Vec<String>, SchemaError>)
        ensures
            r matches Ok(v) && v@.map_values(|s: String| s@).no_duplicates()
                && v@.map_values(|s: String| s@).to_set() == self.edge_types().dom(),
    {
        let k = self.edges.keys();
        proof {
            assert(self.edge_types().dom() =~= self.edges.spec_map().dom());
        }
        Ok(k)
    }
}

} // verus!
