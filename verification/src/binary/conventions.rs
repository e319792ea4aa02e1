use crate::binary::decoder::Decoder;
use crate::errors::{RuntimeError, WasmFault};
use vstd::prelude::*;

verus! {

/// A count-prefixed sequence of decodable items: one length byte, then that
/// many encoded items in order.
#[derive(Debug, Clone, PartialEq)]
pub struct Vectors<T: Decoder>(pub Vec<T>);

impl<T: Decoder> View for Vectors<T> {
    type V = Seq<T::V>;

    open spec fn view(&self) -> Seq<T::V> {
        Seq::new(self.0@.len(), |i: int| self.0@[i]@)
    }
}

/// `count` items of type `T` decode in sequence at `pos`, consuming `n`
/// bytes in all and producing `elems`.
pub open spec fn vec_decodes<T: Decoder>(
    bytes: Seq<u8>,
    pos: int,
    count: int,
    n: int,
    elems: Seq<T::V>,
) -> bool
    decreases count,
{
    if count <= 0 {
        count == 0 && n == 0 && elems.len() == 0
    } else {
        &&& elems.len() == count
        &&& exists|k: int|
            {
                &&& 1 <= k
                &&& #[trigger] T::decodes(bytes, pos, k, elems[0])
                &&& vec_decodes::<T>(bytes, pos + k, count - 1, n - k, elems.drop_first())
            }
    }
}

/// `count` items of type `T` decode in sequence starting at `pos`.
pub open spec fn vec_decodable<T: Decoder>(bytes: Seq<u8>, pos: int, count: int) -> bool
    decreases count,
{
    if count <= 0 {
        true
    } else {
        &&& T::decodable(bytes, pos)
        &&& forall|k: int, v: T::V|
            #[trigger] T::decodes(bytes, pos, k, v) && 1 <= k ==> vec_decodable::<T>(
                bytes,
                pos + k,
                count - 1,
            )
    }
}

/// Extending a decoded sequence by one further item decoded at its end.
pub proof fn lemma_vec_decodes_snoc<T: Decoder>(
    bytes: Seq<u8>,
    pos: int,
    count: int,
    n: int,
    elems: Seq<T::V>,
    k: int,
    v: T::V,
)
    requires
        vec_decodes::<T>(bytes, pos, count, n, elems),
        T::decodes(bytes, pos + n, k, v),
        1 <= k,
    ensures
        vec_decodes::<T>(bytes, pos, count + 1, n + k, elems.push(v)),
    decreases count,
{
    if count <= 0 {
        assert(elems.push(v)[0] == v);
        assert(elems.push(v).drop_first() =~= Seq::<T::V>::empty());
        assert(vec_decodes::<T>(bytes, pos + k, 0, 0, elems.push(v).drop_first()));
    } else {
        let k0 = choose|k0: int|
            {
                &&& 1 <= k0
                &&& #[trigger] T::decodes(bytes, pos, k0, elems[0])
                &&& vec_decodes::<T>(bytes, pos + k0, count - 1, n - k0, elems.drop_first())
            };
        lemma_vec_decodes_snoc::<T>(
            bytes,
            pos + k0,
            count - 1,
            n - k0,
            elems.drop_first(),
            k,
            v,
        );
        assert(elems.push(v).drop_first() =~= elems.drop_first().push(v));
        assert(elems.push(v)[0] == elems[0]);
    }
}

/// A fully decoded sequence witnesses that the count is decodable.
pub proof fn lemma_vec_decodes_decodable<T: Decoder>(
    bytes: Seq<u8>,
    pos: int,
    count: int,
    n: int,
    elems: Seq<T::V>,
)
    requires
        vec_decodes::<T>(bytes, pos, count, n, elems),
    ensures
        vec_decodable::<T>(bytes, pos, count),
    decreases count,
{
    if count > 0 {
        let k0 = choose|k0: int|
            {
                &&& 1 <= k0
                &&& #[trigger] T::decodes(bytes, pos, k0, elems[0])
                &&& vec_decodes::<T>(bytes, pos + k0, count - 1, n - k0, elems.drop_first())
            };
        T::lemma_decodes_decodable(bytes, pos, k0, elems[0]);
        lemma_vec_decodes_decodable::<T>(bytes, pos + k0, count - 1, n - k0, elems.drop_first());
        assert forall|k: int, v: T::V|
            #[trigger] T::decodes(bytes, pos, k, v) && 1 <= k implies vec_decodable::<T>(
            bytes,
            pos + k,
            count - 1,
        ) by {
            T::lemma_decodes_deterministic(bytes, pos, k, k0, v, elems[0]);
        }
    }
}

/// The sequence decode relation is a partial function of the position and
/// count.
pub proof fn lemma_vec_decodes_deterministic<T: Decoder>(
    bytes: Seq<u8>,
    pos: int,
    count: int,
    n1: int,
    n2: int,
    e1: Seq<T::V>,
    e2: Seq<T::V>,
)
    requires
        vec_decodes::<T>(bytes, pos, count, n1, e1),
        vec_decodes::<T>(bytes, pos, count, n2, e2),
    ensures
        n1 == n2,
        e1 == e2,
    decreases count,
{
    if count <= 0 {
        assert(e1 =~= e2);
    } else {
        let k1 = choose|k: int|
            {
                &&& 1 <= k
                &&& #[trigger] T::decodes(bytes, pos, k, e1[0])
                &&& vec_decodes::<T>(bytes, pos + k, count - 1, n1 - k, e1.drop_first())
            };
        let k2 = choose|k: int|
            {
                &&& 1 <= k
                &&& #[trigger] T::decodes(bytes, pos, k, e2[0])
                &&& vec_decodes::<T>(bytes, pos + k, count - 1, n2 - k, e2.drop_first())
            };
        T::lemma_decodes_deterministic(bytes, pos, k1, k2, e1[0], e2[0]);
        lemma_vec_decodes_deterministic::<T>(
            bytes,
            pos + k1,
            count - 1,
            n1 - k1,
            n2 - k1,
            e1.drop_first(),
            e2.drop_first(),
        );
        assert forall|i: int| 0 <= i < count implies e1[i] == e2[i] by {
            if i > 0 {
                assert(e1.drop_first()[i - 1] == e2.drop_first()[i - 1]);
            }
        }
        assert(e1 =~= e2);
    }
}

/// A vector whose count byte is zero decodes to the empty sequence and
/// consumes exactly the count byte, whatever the element type.
pub proof fn lemma_vec_zero<T: Decoder>(bytes: Seq<u8>, pos: int)
    requires
        0 <= pos < bytes.len(),
        bytes[pos] == 0,
    ensures
        Vectors::<T>::decodable(bytes, pos),
        Vectors::<T>::decodes(bytes, pos, 1, Seq::<T::V>::empty()),
        forall|n: int, v: Seq<T::V>|
            #[trigger] Vectors::<T>::decodes(bytes, pos, n, v) ==> n == 1 && v.len() == 0,
{
    assert(vec_decodable::<T>(bytes, pos + 1, 0));
    assert(vec_decodes::<T>(bytes, pos + 1, 0, 0, Seq::<T::V>::empty()));
}

impl<T: Decoder> Vectors<T> {
    /// The vector decode relation: the byte at `pos` is the count, and that
    /// many items follow.
    pub open spec fn decodes(bytes: Seq<u8>, pos: int, n: int, v: Seq<T::V>) -> bool {
        &&& 0 <= pos < bytes.len()
        &&& v.len() == bytes[pos]
        &&& vec_decodes::<T>(bytes, pos + 1, bytes[pos] as int, n - 1, v)
    }

    /// A count byte is present and that many items decode after it.
    pub open spec fn decodable(bytes: Seq<u8>, pos: int) -> bool {
        0 <= pos < bytes.len() && vec_decodable::<T>(bytes, pos + 1, bytes[pos] as int)
    }

    /// Decode a count-prefixed vector of `T` at `pos`: one length byte,
    /// then exactly that many items, consuming their bytes plus one.
    pub fn decode(bytes: &Vec<u8>, pos: usize) -> (r: Result<(usize, Vectors<T>), RuntimeError>)
        requires
            pos <= bytes@.len(),
        ensures
            (r matches Ok((n, v)) ==> 1 <= n && pos + n <= bytes@.len() && Self::decodes(
                bytes@,
                pos as int,
                n as int,
                v@,
            )),
            r.is_ok() <==> Self::decodable(bytes@, pos as int),
            (r matches Err(e) ==> e is InvalidWasmError),
            pos == bytes@.len() ==> r == Err::<(usize, Vectors<T>), RuntimeError>(
                RuntimeError::InvalidWasmError(WasmFault::Vector),
            ),
    {
        let len = bytes.len();
        if pos >= len {
            return Err(RuntimeError::InvalidWasmError(WasmFault::Vector));
        }
        let count = bytes[pos];
        let ghost start = pos + 1;
        let mut items: Vec<T> = Vec::new();
        let mut cur: usize = pos + 1;
        let mut i: u8 = 0;
        proof {
            assert(Seq::new(items@.len(), |j: int| items@[j]@) =~= Seq::<T::V>::empty());
        }
        while i < count
            invariant
                len == bytes@.len(),
                pos < bytes@.len(),
                start == pos + 1,
                i <= count,
                count == bytes@[pos as int],
                pos + 1 <= cur <= bytes@.len(),
                items@.len() == i,
                vec_decodes::<T>(
                    bytes@,
                    start,
                    i as int,
                    cur - start,
                    Seq::new(items@.len(), |j: int| items@[j]@),
                ),
                vec_decodable::<T>(bytes@, start, count as int) ==> vec_decodable::<T>(
                    bytes@,
                    cur as int,
                    count - i,
                ),
            decreases count - i,
        {
            let ghost elems = Seq::new(items@.len(), |j: int| items@[j]@);
            match T::decode(bytes, cur) {
                Ok((k, item)) => {
                    proof {
                        lemma_vec_decodes_snoc::<T>(
                            bytes@,
                            start,
                            i as int,
                            cur - start,
                            elems,
                            k as int,
                            item@,
                        );
                        if vec_decodable::<T>(bytes@, start, count as int) {
                            assert(vec_decodable::<T>(bytes@, cur as int, count - i));
                            assert(T::decodes(bytes@, cur as int, k as int, item@) && 1 <= k);
                        }
                    }
                    items.push(item);
                    cur = cur + k;
                    i = i + 1;
                    proof {
                        assert(Seq::new(items@.len(), |j: int| items@[j]@) =~= elems.push(
                            item@,
                        ));
                    }
                },
                Err(e) => {
                    proof {
                        assert(!T::decodable(bytes@, cur as int));
                        assert(!vec_decodable::<T>(bytes@, cur as int, count - i));
                    }
                    return Err(e);
                },
            }
        }
        proof {
            lemma_vec_decodes_decodable::<T>(
                bytes@,
                start,
                count as int,
                cur - start,
                Seq::new(items@.len(), |j: int| items@[j]@),
            );
        }
        Ok((cur - pos, Vectors(items)))
    }
}

} // verus!
