//! The generic value model: a closed tagged union covering every TOML
//! data shape, together with its spec-level counterpart.

use vstd::prelude::*;

verus! {

broadcast use vstd::seq::axiom_seq_index_decreases, vstd::std_specs::vec::axiom_vec_decreases_to_view;

/// Spec-level model of a decoded document: the mathematical tree that
/// contracts speak of. Strings appear as character sequences, integers
/// as unbounded integers. A float appears as its JSON number token
/// (already rendered to text), since the library reasons about the
/// emitted text, not about float arithmetic.
pub enum SpecValue {
    Text(Seq<char>),
    Int(int),
    Float(Seq<char>),
    Bool(bool),
    Datetime(Seq<char>),
    Array(Seq<SpecValue>),
    Table(Seq<(Seq<char>, SpecValue)>),
}

/// Executable generic value: one variant per TOML data shape.
///
/// - `Float` holds the JSON number token of the float (for example
///   `1.5`, or `null` for values JSON cannot express, matching the
///   common JSON-encoder convention for non-finite numbers).
/// - `Datetime` holds the standard textual representation of the
///   date/time, which JSON renders as a string.
/// - `Table` keeps its key/value pairs in declaration order.
pub enum GenericValue {
    Text(String),
    Int(i64),
    Float(String),
    Bool(bool),
    Datetime(String),
    Array(Vec<GenericValue>),
    Table(Vec<(String, GenericValue)>),
}

/// The model of an executable value: structural, variant by variant.
pub open spec fn model(v: GenericValue) -> SpecValue
    decreases v,
{
    match v {
        GenericValue::Text(s) => SpecValue::Text(s@),
        GenericValue::Int(i) => SpecValue::Int(i as int),
        GenericValue::Float(t) => SpecValue::Float(t@),
        GenericValue::Bool(b) => SpecValue::Bool(b),
        GenericValue::Datetime(s) => SpecValue::Datetime(s@),
        GenericValue::Array(es) => {
            proof {
                assert(decreases_to!(v => es));
                assert(decreases_to!(es => es@));
            }
            SpecValue::Array(model_seq(es@))
        },
        GenericValue::Table(ps) => {
            proof {
                assert(decreases_to!(v => ps));
                assert(decreases_to!(ps => ps@));
            }
            SpecValue::Table(model_pairs(ps@))
        },
    }
}

/// The models of the elements of an array, in order.
pub open spec fn model_seq(es: Seq<GenericValue>) -> Seq<SpecValue>
    decreases es,
{
    if es.len() == 0 {
        Seq::empty()
    } else {
        proof {
            assert(decreases_to!(es => es.drop_last()));
            assert(decreases_to!(es => es.last()));
        }
        model_seq(es.drop_last()).push(model(es.last()))
    }
}

/// The models of the members of a table, in declaration order.
pub open spec fn model_pairs(ps: Seq<(String, GenericValue)>) -> Seq<(Seq<char>, SpecValue)>
    decreases ps,
{
    if ps.len() == 0 {
        Seq::empty()
    } else {
        proof {
            assert(decreases_to!(ps => ps.drop_last()));
            assert(decreases_to!(ps => ps.last()));
            assert(decreases_to!(ps.last() => ps.last().1));
        }
        model_pairs(ps.drop_last()).push((ps.last().0@, model(ps.last().1)))
    }
}

impl View for GenericValue {
    type V = SpecValue;

    open spec fn view(&self) -> SpecValue {
        model(*self)
    }
}

/// The model of an array keeps its length and models each element in
/// place.
pub proof fn lemma_model_seq(es: Seq<GenericValue>)
    ensures
        model_seq(es).len() == es.len(),
        forall|i: int| 0 <= i < es.len() ==> model_seq(es)[i] == model(#[trigger] es[i]),
    decreases es,
{
    if es.len() > 0 {
        lemma_model_seq(es.drop_last());
        assert forall|i: int| 0 <= i < es.len() implies model_seq(es)[i] == model(
            #[trigger] es[i],
        ) by {
            if i < es.len() - 1 {
                assert(es.drop_last()[i] == es[i]);
            }
        }
    }
}

/// The model of a table keeps its length and models each member in
/// place, key and value.
pub proof fn lemma_model_pairs(ps: Seq<(String, GenericValue)>)
    ensures
        model_pairs(ps).len() == ps.len(),
        forall|i: int|
            0 <= i < ps.len() ==> model_pairs(ps)[i] == ((#[trigger] ps[i]).0@, model(ps[i].1)),
    decreases ps,
{
    if ps.len() > 0 {
        lemma_model_pairs(ps.drop_last());
        assert forall|i: int| 0 <= i < ps.len() implies model_pairs(ps)[i] == ((
        #[trigger] ps[i]).0@, model(ps[i].1)) by {
            if i < ps.len() - 1 {
                assert(ps.drop_last()[i] == ps[i]);
            }
        }
    }
}

/// Well-formedness of a decoded document: every table, at every depth,
/// binds each key at most once. The TOML grammar rejects duplicate
/// keys, so every value the decoder produces satisfies this.
pub open spec fn wf(v: SpecValue) -> bool
    decreases v,
{
    match v {
        SpecValue::Array(es) => forall|i: int| 0 <= i < es.len() ==> wf(#[trigger] es[i]),
        SpecValue::Table(ps) => {
            &&& forall|i: int, j: int|
                0 <= i < j < ps.len() ==> (#[trigger] ps[i].0) != (#[trigger] ps[j].0)
            &&& forall|i: int| 0 <= i < ps.len() ==> wf(#[trigger] ps[i].1)
        },
        _ => true,
    }
}

} // verus!
