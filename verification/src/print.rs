//! The canonical textual form of a value.
//!
//! The form is made of pieces: stretches of text, and numbers, whose digits
//! only the host knows how to write.

use vstd::prelude::*;
use crate::error::{Error, ErrorKind, fault};
use crate::host::{Exchange, Host, Recorder, extends, grows};
use crate::semantics::{Sem, sem_emit};
use crate::value::{Value, Variable, array_model, entry_models, models, object_model};

verus! {

/// One piece of the textual form of a value.
#[derive(Debug, PartialEq)]
pub enum Piece {
    Text(String),
    Number(u64),
}

/// The model of a `Piece`.
pub enum PieceValue {
    Text(Seq<char>),
    Number(u64),
}

impl View for Piece {
    type V = PieceValue;

    open spec fn view(&self) -> PieceValue {
        match self {
            Piece::Text(t) => PieceValue::Text(t@),
            Piece::Number(n) => PieceValue::Number(*n),
        }
    }
}

/// The models of a sequence of pieces.
pub open spec fn piece_models(pieces: Seq<Piece>) -> Seq<PieceValue> {
    Seq::new(pieces.len(), |i: int| pieces[i]@)
}

/// The canonical form of a value: a text as it is, a number as the host
/// writes it, a boolean as `true` or `false`, an array as `[v1, v2]` and an
/// object as `{k1: v1, k2: v2}`, with every value in its own canonical form.
/// An empty return slot, a reference and a handle have no form.
pub open spec fn canonical(v: Value) -> Result<Seq<PieceValue>, ErrorKind>
    decreases v,
{
    match v {
        Value::Text(t) => Ok(seq![PieceValue::Text(t)]),
        Value::Number(n) => Ok(seq![PieceValue::Number(n)]),
        Value::Bool(b) => Ok(
            seq![PieceValue::Text(if b {
                "true"@
            } else {
                "false"@
            })],
        ),
        Value::Array(a) => match canonical_items(a) {
            Ok(inner) => Ok(seq![PieceValue::Text("["@)] + inner + seq![PieceValue::Text("]"@)]),
            Err(k) => Err(k),
        },
        Value::Object(o) => match canonical_entries(o) {
            Ok(inner) => Ok(seq![PieceValue::Text("{"@)] + inner + seq![PieceValue::Text("}"@)]),
            Err(k) => Err(k),
        },
        _ => Err(ErrorKind::NotPrintable),
    }
}

/// The forms of the elements of an array, with `, ` between them.
pub open spec fn canonical_items(items: Seq<Value>) -> Result<Seq<PieceValue>, ErrorKind>
    decreases items,
{
    if items.len() == 0 {
        Ok(Seq::empty())
    } else {
        match canonical_items(items.drop_last()) {
            Err(k) => Err(k),
            Ok(front) => match canonical(items.last()) {
                Err(k) => Err(k),
                Ok(form) => Ok(
                    front + (if items.len() > 1 {
                        seq![PieceValue::Text(", "@)]
                    } else {
                        Seq::empty()
                    }) + form,
                ),
            },
        }
    }
}

/// The forms of the entries of an object, each as `key: value`, with `, `
/// between them.
pub open spec fn canonical_entries(entries: Seq<(Seq<char>, Value)>) -> Result<
    Seq<PieceValue>,
    ErrorKind,
>
    decreases entries,
{
    if entries.len() == 0 {
        Ok(Seq::empty())
    } else {
        match canonical_entries(entries.drop_last()) {
            Err(k) => Err(k),
            Ok(front) => match canonical(entries.last().1) {
                Err(k) => Err(k),
                Ok(form) => Ok(
                    front + (if entries.len() > 1 {
                        seq![PieceValue::Text(", "@)]
                    } else {
                        Seq::empty()
                    }) + seq![PieceValue::Text(entries.last().0), PieceValue::Text(": "@)] + form,
                ),
            },
        }
    }
}

/// A failure among the first `n` elements is the failure of them all.
pub proof fn canonical_items_fail(items: Seq<Value>, n: int)
    requires
        0 <= n <= items.len(),
        canonical_items(items.take(n)) is Err,
    ensures
        canonical_items(items) == canonical_items(items.take(n)),
    decreases items.len() - n,
{
    if n < items.len() {
        assert(items.take(n + 1).drop_last() =~= items.take(n));
        canonical_items_fail(items, n + 1);
    } else {
        assert(items.take(n) =~= items);
    }
}

/// A failure among the first `n` entries is the failure of them all.
pub proof fn canonical_entries_fail(entries: Seq<(Seq<char>, Value)>, n: int)
    requires
        0 <= n <= entries.len(),
        canonical_entries(entries.take(n)) is Err,
    ensures
        canonical_entries(entries) == canonical_entries(entries.take(n)),
    decreases entries.len() - n,
{
    if n < entries.len() {
        assert(entries.take(n + 1).drop_last() =~= entries.take(n));
        canonical_entries_fail(entries, n + 1);
    } else {
        assert(entries.take(n) =~= entries);
    }
}

fn push_text(out: &mut Vec<Piece>, text: &str)
    ensures
        piece_models(final(out)@) == piece_models(old(out)@) + seq![PieceValue::Text(text@)],
{
    let ghost before = out@;
    out.push(Piece::Text(String::from_str(text)));
    assert(piece_models(out@) =~= piece_models(before) + seq![PieceValue::Text(text@)]);
}

/// Appends the canonical form of `v` to `out`. On a failure `out` holds
/// some pieces of the form.
fn append_form(v: &Variable, out: &mut Vec<Piece>) -> (r: Result<(), Error>)
    ensures
        match canonical(v@) {
            Ok(form) => r is Ok && piece_models(final(out)@) == piece_models(old(out)@) + form,
            Err(k) => r matches Err(e) && e@ == fault(k),
        },
    decreases *v,
{
    let ghost start = piece_models(out@);
    match v {
        Variable::Text(t) => {
            push_text(out, t.as_str());
            Ok(())
        },
        Variable::Number(n) => {
            let ghost before = out@;
            out.push(Piece::Number(*n));
            assert(piece_models(out@) =~= piece_models(before) + seq![PieceValue::Number(*n)]);
            Ok(())
        },
        Variable::Bool(b) => {
            if *b {
                push_text(out, "true");
            } else {
                push_text(out, "false");
            }
            Ok(())
        },
        Variable::Array(a) => {
            proof {
                array_model(*v);
            }
            push_text(out, "[");
            let ghost opened = piece_models(out@);
            let mut i: usize = 0;
            assert(opened + Seq::<PieceValue>::empty() =~= opened);
            while i < a.len()
                invariant
                    i <= a.len(),
                    canonical_items(models(a@).take(i as int)) is Ok,
                    piece_models(out@) == opened + canonical_items(
                        models(a@).take(i as int),
                    )->Ok_0,
                    decreases_to!(*v => *a),
                    v@ == Value::Array(models(a@)),
                decreases a.len() - i,
            {
                assert(models(a@).take(i + 1).drop_last() =~= models(a@).take(i as int));
                let ghost front = canonical_items(models(a@).take(i as int))->Ok_0;
                if i > 0 {
                    push_text(out, ", ");
                }
                let ghost separated = piece_models(out@);
                match append_form(&a[i], out) {
                    Ok(()) => {
                        proof {
                            let sep = if i > 0 {
                                seq![PieceValue::Text(", "@)]
                            } else {
                                Seq::empty()
                            };
                            let form = canonical(a[i as int]@)->Ok_0;
                            assert(separated =~= opened + front + sep);
                            assert(piece_models(out@) =~= opened + (front + sep + form));
                        }
                    },
                    Err(e) => {
                        proof {
                            canonical_items_fail(models(a@), i + 1);
                        }
                        return Err(e);
                    },
                }
                i += 1;
            }
            proof {
                assert(models(a@).take(i as int) =~= models(a@));
            }
            let ghost filled = piece_models(out@);
            push_text(out, "]");
            proof {
                let inner = canonical_items(models(a@))->Ok_0;
                assert(piece_models(out@) =~= start + (seq![PieceValue::Text("["@)] + inner
                    + seq![PieceValue::Text("]"@)]));
            }
            Ok(())
        },
        Variable::Object(o) => {
            proof {
                object_model(*v);
            }
            push_text(out, "{");
            let ghost opened = piece_models(out@);
            let mut i: usize = 0;
            assert(opened + Seq::<PieceValue>::empty() =~= opened);
            while i < o.len()
                invariant
                    i <= o.len(),
                    canonical_entries(entry_models(o@).take(i as int)) is Ok,
                    piece_models(out@) == opened + canonical_entries(
                        entry_models(o@).take(i as int),
                    )->Ok_0,
                    decreases_to!(*v => *o),
                    v@ == Value::Object(entry_models(o@)),
                decreases o.len() - i,
            {
                assert(entry_models(o@).take(i + 1).drop_last() =~= entry_models(o@).take(
                    i as int,
                ));
                let ghost front = canonical_entries(entry_models(o@).take(i as int))->Ok_0;
                if i > 0 {
                    push_text(out, ", ");
                }
                push_text(out, o[i].0.as_str());
                push_text(out, ": ");
                let ghost labelled = piece_models(out@);
                match append_form(&o[i].1, out) {
                    Ok(()) => {
                        proof {
                            let sep = if i > 0 {
                                seq![PieceValue::Text(", "@)]
                            } else {
                                Seq::empty()
                            };
                            let label =
                                seq![PieceValue::Text(o[i as int].0@), PieceValue::Text(": "@)];
                            let form = canonical(o[i as int].1@)->Ok_0;
                            assert(labelled =~= opened + front + sep + label);
                            assert(piece_models(out@) =~= opened + (front + sep + label + form));
                        }
                    },
                    Err(e) => {
                        proof {
                            canonical_entries_fail(entry_models(o@), i + 1);
                        }
                        return Err(e);
                    },
                }
                i += 1;
            }
            proof {
                assert(entry_models(o@).take(i as int) =~= entry_models(o@));
            }
            push_text(out, "}");
            proof {
                let inner = canonical_entries(entry_models(o@))->Ok_0;
                assert(piece_models(out@) =~= start + (seq![PieceValue::Text("{"@)] + inner
                    + seq![PieceValue::Text("}"@)]));
            }
            Ok(())
        },
        _ => Err(Error::new(ErrorKind::NotPrintable)),
    }
}

/// The canonical form of a value, in pieces.
pub fn pieces(v: &Variable) -> (r: Result<Vec<Piece>, Error>)
    ensures
        match canonical(v@) {
            Ok(form) => r matches Ok(p) && piece_models(p@) == form,
            Err(k) => r matches Err(e) && e@ == fault(k),
        },
{
    let mut out: Vec<Piece> = Vec::new();
    assert(piece_models(out@) =~= Seq::empty());
    match append_form(v, &mut out) {
        Ok(()) => {
            assert(Seq::<PieceValue>::empty() + canonical(v@)->Ok_0 =~= canonical(v@)->Ok_0);
            Ok(out)
        },
        Err(e) => Err(e),
    }
}

/// Hands the pieces to the host, one after the other, as `sem_emit` says:
/// a text as it is, a number in the form that the host gives it.
pub fn emit<H: Host>(host: &mut Recorder<H>, pieces: &Vec<Piece>)
    ensures
        grows(old(host).log@, final(host).log@),
        forall|longer: Seq<Exchange>| #[trigger]
            extends(final(host).log@, longer) ==> sem_emit(
                piece_models(pieces@),
                old(host).log@.len(),
                longer,
            ) == Sem::Done(final(host).log@.len()),
{
    let mut i: usize = 0;
    assert(piece_models(pieces@).skip(0) =~= piece_models(pieces@));
    while i < pieces.len()
        invariant
            i <= pieces.len(),
            grows(old(host).log@, host.log@),
            forall|longer: Seq<Exchange>| #[trigger]
                extends(host.log@, longer) ==> sem_emit(
                    piece_models(pieces@),
                    old(host).log@.len(),
                    longer,
                ) == sem_emit(piece_models(pieces@).skip(i as int), host.log@.len(), longer),
        decreases pieces.len() - i,
    {
        let ghost rest = piece_models(pieces@).skip(i as int);
        assert(rest.skip(1) =~= piece_models(pieces@).skip(i + 1));
        assert(rest[0] == pieces[i as int]@);
        match &pieces[i] {
            Piece::Text(t) => {
                host.put(t.as_str());
            },
            Piece::Number(n) => {
                let text = host.number_text(*n);
                host.put(text.as_str());
            },
        }
        i += 1;
    }
}

} // verus!
