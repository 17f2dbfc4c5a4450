//! What is in a buffer after a sequence of fields was written to it.
use vstd::prelude::*;

use crate::wire::overwrite;

verus! {

/// A buffer that something was written to, and the position after it. `ok` says
/// that all of it found room.
#[verifier::ext_equal]
pub struct Written {
    pub data: Seq<u8>,
    pub off: int,
    pub ok: bool,
}

/// Writes the fields one after the other. A field is written whole or not at
/// all, and nothing is written after one that finds no room.
pub open spec fn put_fields(data: Seq<u8>, off: int, fields: Seq<Seq<u8>>) -> Written
    decreases fields.len(),
{
    if fields.len() == 0 {
        Written { data, off, ok: true }
    } else if off + fields[0].len() > data.len() {
        Written { data, off, ok: false }
    } else {
        put_fields(overwrite(data, off, fields[0]), off + fields[0].len(), fields.drop_first())
    }
}

/// The bytes of all the fields.
pub open spec fn flat(fields: Seq<Seq<u8>>) -> Seq<u8>
    decreases fields.len(),
{
    if fields.len() == 0 {
        Seq::empty()
    } else {
        fields[0] + flat(fields.drop_first())
    }
}

/// One step of writing: the field `fields[k]`, and then those after it.
pub proof fn lemma_put_step(data: Seq<u8>, off: int, fields: Seq<Seq<u8>>, k: int)
    requires
        0 <= k < fields.len(),
    ensures
        put_fields(data, off, fields.skip(k)) == (if off + fields[k].len() > data.len() {
            Written { data, off, ok: false }
        } else {
            put_fields(overwrite(data, off, fields[k]), off + fields[k].len(), fields.skip(k + 1))
        }),
{
    assert(fields.skip(k).drop_first() =~= fields.skip(k + 1));
}

/// Fields written after others: those before them are written first, and then
/// they are, unless one before them found no room.
pub proof fn lemma_put_concat(data: Seq<u8>, off: int, a: Seq<Seq<u8>>, b: Seq<Seq<u8>>)
    ensures
        put_fields(data, off, a + b) == ({
            let w = put_fields(data, off, a);
            if w.ok {
                put_fields(w.data, w.off, b)
            } else {
                w
            }
        }),
    decreases a.len(),
{
    if a.len() == 0 {
        assert(a + b =~= b);
    } else {
        assert((a + b).drop_first() =~= a.drop_first() + b);
        if off + a[0].len() <= data.len() {
            lemma_put_concat(overwrite(data, off, a[0]), off + a[0].len(), a.drop_first(), b);
        }
    }
}

/// All the fields are written if and only if there is room for all their bytes,
/// and then those bytes, in the order of the fields, are what is in the buffer.
pub proof fn lemma_put_fields_whole(data: Seq<u8>, off: int, fields: Seq<Seq<u8>>)
    requires
        0 <= off <= data.len(),
    ensures
        ({
            let w = put_fields(data, off, fields);
            &&& w.ok <==> off + flat(fields).len() <= data.len()
            &&& w.data.len() == data.len()
            &&& off <= w.off <= data.len()
            &&& w.ok ==> w.off == off + flat(fields).len() && w.data == overwrite(
                data,
                off,
                flat(fields),
            )
        }),
    decreases fields.len(),
{
    if fields.len() == 0 {
        assert(overwrite(data, off, flat(fields)) =~= data);
    } else if off + fields[0].len() <= data.len() {
        let rest = fields.drop_first();
        let next = overwrite(data, off, fields[0]);
        lemma_put_fields_whole(next, off + fields[0].len(), rest);
        if off + flat(fields).len() <= data.len() {
            assert(overwrite(next, off + fields[0].len(), flat(rest)) =~= overwrite(
                data,
                off,
                flat(fields),
            ));
        }
    }
}

/// The bytes of fields are those of one after the other.
pub proof fn bytes_of_fields(a: Seq<Seq<u8>>, field: Seq<u8>, b: Seq<Seq<u8>>)
    ensures
        flat(Seq::<Seq<u8>>::empty()) == Seq::<u8>::empty(),
        flat(a.push(field) + b) == flat(a) + field + flat(b),
    decreases a.len(),
{
    let all = a.push(field) + b;
    if a.len() == 0 {
        assert(all.drop_first() =~= b);
        assert(flat(a) + field + flat(b) =~= all[0] + flat(b));
    } else {
        bytes_of_fields(a.drop_first(), field, b);
        assert(all.drop_first() =~= a.drop_first().push(field) + b);
        assert(flat(all) =~= flat(a) + field + flat(b));
    }
}

/// Where the fields `a` find room, and the field behind them does not, `a` are
/// written, whole, and nothing else is.
pub proof fn fields_before_the_end_are_written(
    data: Seq<u8>,
    off: int,
    a: Seq<Seq<u8>>,
    field: Seq<u8>,
    b: Seq<Seq<u8>>,
    i: int,
)
    requires
        0 <= off,
        off + flat(a).len() <= data.len() < off + flat(a).len() + field.len(),
    ensures
        ({
            let w = put_fields(data, off, a.push(field) + b);
            &&& !w.ok
            &&& w.off == off + flat(a).len()
            &&& w.data.len() == data.len()
            &&& 0 <= i < data.len() ==> w.data[i] == (if off <= i < w.off {
                flat(a)[i - off]
            } else {
                data[i]
            })
        }),
{
    let tail = seq![field] + b;
    assert(a.push(field) + b =~= a + tail);
    lemma_put_concat(data, off, a, tail);
    lemma_put_fields_whole(data, off, a);
    assert(tail[0] == field);
}

/// Where all the fields find room, their bytes are written, and nothing else is.
pub proof fn all_fields_are_written(data: Seq<u8>, off: int, fields: Seq<Seq<u8>>, i: int)
    requires
        0 <= off,
        off + flat(fields).len() <= data.len(),
    ensures
        ({
            let w = put_fields(data, off, fields);
            &&& w.ok
            &&& w.off == off + flat(fields).len()
            &&& w.data.len() == data.len()
            &&& 0 <= i < data.len() ==> w.data[i] == (if off <= i < w.off {
                flat(fields)[i - off]
            } else {
                data[i]
            })
        }),
{
    lemma_put_fields_whole(data, off, fields);
}

} // verus!
