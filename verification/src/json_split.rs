//! Splitting a JSON array into files of a few elements each: reading the
//! array's elements, the size of the pieces, where each piece starts and ends,
//! the JSON text of each piece, what each file is called, and the folder the
//! files go to when none is given.
use vstd::prelude::*;
use crate::paths::{extension_of_name, file_name, file_name_of, join, joined, name_extension, parent, parent_of};
use crate::text::{decimal, decimal_text};

verus! {

/// The number of elements in each piece: `split_size` when given, else the
/// length divided by `split_amount` when that is given, else one.
pub open spec fn chunk_size_for(split_amount: Option<usize>, split_size: Option<usize>, len: nat) -> nat {
    match (split_amount, split_size) {
        (None, Some(n)) => n as nat,
        (Some(n), None) => len / (n as nat),
        _ => 1,
    }
}

/// The number of elements in each piece of an array of `len` elements. At
/// most one of the two settings is given, and a number of pieces is not zero.
pub fn chunk_size(split_amount: Option<usize>, split_size: Option<usize>, len: usize) -> (size: usize)
    requires
        !(split_amount is Some && split_size is Some),
        split_amount matches Some(n) ==> n > 0,
    ensures
        size == chunk_size_for(split_amount, split_size, len as nat),
        split_amount matches Some(n) ==> size * n <= len < (size + 1) * n,
        split_size matches Some(n) ==> size == n,
        split_amount is None && split_size is None ==> size == 1,
{
    proof {
        if let Some(n) = split_amount {
            lemma_split_amount(len as nat, n);
        }
    }
    match (split_amount, split_size) {
        (None, Some(n)) => n,
        (Some(n), None) => len / n,
        _ => 1,
    }
}

/// Splitting into `n` pieces takes the length divided by `n`, rounded down,
/// as the piece size: `n` pieces of that size fit in the array, `n` pieces
/// one longer do not. So an array of `k * n` elements, `k` not zero, goes
/// into exactly `n` pieces of `k` elements.
pub proof fn lemma_split_amount(len: nat, n: usize)
    requires
        n > 0,
    ensures
        ({
            let size = chunk_size_for(Some(n), None, len);
            &&& size * n <= len < (size + 1) * n
            &&& forall|k: nat| #[trigger] (k * n) == len && k > 0 ==> size == k && (len + size - 1) / (size as int) == n
        }),
{
    let size = chunk_size_for(Some(n), None, len);
    vstd::arithmetic::div_mod::lemma_fundamental_div_mod(len as int, n as int);
    assert(size == len / (n as nat));
    assert(size * n <= len < (size + 1) * n) by (nonlinear_arith)
        requires
            len == n * ((len as int) / (n as int)) + (len as int) % (n as int),
            0 <= (len as int) % (n as int) < n,
            size == (len as int) / (n as int),
    ;
    assert forall|k: nat| #[trigger] (k * n) == len && k > 0 implies size == k && (len + size - 1) / (size as int) == n by {
        vstd::arithmetic::div_mod::lemma_fundamental_div_mod_converse(len as int, n as int, k as int, 0);
        assert(k * n == n * k) by (nonlinear_arith);
        vstd::arithmetic::div_mod::lemma_fundamental_div_mod_converse(
            (len + k - 1) as int,
            k as int,
            n as int,
            (k - 1) as int,
        );
    }
}

/// The pieces of `len` elements taken `size` at a time: each starts where the
/// one before ended, and the last may be shorter (`slice::chunks`).
pub open spec fn chunk_bounds(len: nat, size: nat, i: int) -> (int, int) {
    let start = i * size;
    let end = if start + size <= len { start + size } else { len as int };
    (start, end)
}

/// Where each piece of an array of `len` elements, taken `size` at a time,
/// starts and ends.
pub fn chunk_ranges(len: usize, size: usize) -> (ranges: Vec<(usize, usize)>)
    requires
        size > 0,
    ensures
        ranges@.len() == (len + size - 1) / (size as int),
        forall|i: int| 0 <= i < ranges@.len() ==> (#[trigger] ranges@[i]).0 == chunk_bounds(len as nat, size as nat, i).0
            && ranges@[i].1 == chunk_bounds(len as nat, size as nat, i).1,
{
    let mut ranges: Vec<(usize, usize)> = Vec::new();
    let mut start: usize = 0;
    assert(ranges@.len() * size == 0) by (nonlinear_arith)
        requires
            ranges@.len() == 0,
    ;
    while start < len
        invariant
            size > 0,
            start <= len,
            start <= ranges@.len() * size,
            start < len ==> start == ranges@.len() * size,
            ranges@.len() * size < len + size,
            forall|i: int| 0 <= i < ranges@.len() ==> (#[trigger] ranges@[i]).0 == chunk_bounds(len as nat, size as nat, i).0
                && ranges@[i].1 == chunk_bounds(len as nat, size as nat, i).1,
        decreases len - start,
    {
        let end = if len - start >= size { start + size } else { len };
        proof {
            assert((ranges@.len() + 1) * size == ranges@.len() * size + size) by (nonlinear_arith);
        }
        ranges.push((start, end));
        start = end;
    }
    proof {
        let k = ranges@.len();
        assert((len + size - 1) / (size as int) == k) by (nonlinear_arith)
            requires
                size > 0,
                k * size < len + size,
                len <= k * size,
        {
            assert((k * size + (len + size - 1 - k * size)) / (size as int) == k) by {
                vstd::arithmetic::div_mod::lemma_fundamental_div_mod_converse(
                    len + size - 1,
                    size as int,
                    k as int,
                    len + size - 1 - k * size,
                );
            }
        }
    }
    ranges
}

/// The name of the file that piece `index` goes to.
pub fn chunk_file_name(index: usize) -> (name: String)
    ensures
        name@ == decimal_text(index as nat) + ".json"@,
{
    let mut name = decimal(index as u64);
    name.append(".json");
    name
}

/// A file name without its extension and the dot before it.
pub open spec fn stem_of(name: Seq<char>) -> Seq<char> {
    match name_extension(name) {
        Some(ext) => name.subrange(0, name.len() - ext.len() - 1),
        None => name,
    }
}

/// The file name `name` without its extension and the dot before it, as
/// [`stem_of`] gives it; a name without an extension is kept whole.
pub fn strip_extension(name: &str) -> (stem: String)
    ensures
        stem@ == stem_of(name@),
{
    match extension_of_name(name) {
        Some(ext) => {
            let n = name.unicode_len();
            let e = ext.unicode_len();
            proof {
                crate::paths::lemma_last_dot(name@);
            }
            name.substring_char(0, n - e - 1).to_owned()
        },
        None => name.to_owned(),
    }
}

/// The folder the pieces of `src` go to: beside the file, named as the file
/// without its extension.
pub open spec fn dest_for(src: Seq<char>) -> Option<Seq<char>> {
    match (parent_of(src), file_name_of(src)) {
        (Some(dir), Some(name)) => Some(joined(dir, stem_of(name))),
        _ => None,
    }
}

/// The folder the pieces of the file `src` go to where no folder is given:
/// the file's path without its extension. None where the path has no parent
/// or no file name.
pub fn derive_dest_from_src(src: &str) -> (dest: Option<String>)
    ensures
        match dest {
            Some(d) => dest_for(src@) == Some(d@),
            None => dest_for(src@) is None,
        },
{
    let dir = match parent(src) {
        Some(d) => d,
        None => return None,
    };
    let name = match file_name(src) {
        Some(n) => n,
        None => return None,
    };
    let stem = strip_extension(name.as_str());
    Some(join(dir.as_str(), stem.as_str()))
}

/// What `serde_json` makes of `text` read as a JSON array: the compact JSON
/// text of each element in order (`Value::to_string`), or `None` where the
/// text is not JSON or not an array.
pub uninterp spec fn json_array_elements_of(text: Seq<char>) -> Option<Seq<Seq<char>>>;

/// Parses `text` with `serde_json::from_str` into a `Value`, takes it as an
/// array (`Value::as_array`) and writes each element back out with its
/// `Display`. Claimed: the result is [`json_array_elements_of`] of the text.
#[verifier::external_body]
fn json_array_elements(text: &str) -> (elems: Option<Vec<String>>)
    ensures
        match elems {
            Some(v) => json_array_elements_of(text@) == Some(v@.map_values(|e: String| e@)),
            None => json_array_elements_of(text@) is None,
        },
{
    match serde_json::from_str::<serde_json::Value>(text) {
        Ok(value) => value.as_array().map(|a| a.iter().map(|e| e.to_string()).collect()),
        Err(_) => None,
    }
}

/// The texts `elems` one after another with a comma between each two.
pub open spec fn comma_list(elems: Seq<Seq<char>>) -> Seq<char>
    decreases elems.len(),
{
    if elems.len() == 0 {
        Seq::empty()
    } else if elems.len() == 1 {
        elems[0]
    } else {
        comma_list(elems.drop_last()) + seq![','] + elems.last()
    }
}

/// The compact JSON text of an array whose elements have the texts `elems`:
/// `[`, the texts separated by commas, `]`, as `serde_json::to_string`
/// writes a slice of values.
pub open spec fn json_array_text(elems: Seq<Seq<char>>) -> Seq<char> {
    seq!['['] + comma_list(elems) + seq![']']
}

/// The text of piece `i` of the array with element texts `elems`, taken
/// `size` elements at a time.
pub open spec fn piece_text(elems: Seq<Seq<char>>, size: nat, i: int) -> Seq<char> {
    let (start, end) = chunk_bounds(elems.len(), size, i);
    json_array_text(elems.subrange(start, end))
}

/// The JSON texts of the pieces of an array whose elements have the texts
/// `elems`, taken `size` at a time, in order.
pub fn split_elements(elems: &Vec<String>, size: usize) -> (pieces: Vec<String>)
    requires
        size > 0,
    ensures
        ({
            let es = elems@.map_values(|e: String| e@);
            &&& pieces@.len() == (es.len() + size - 1) / (size as int)
            &&& forall|i: int| 0 <= i < pieces@.len() ==> (#[trigger] pieces@[i])@ == piece_text(es, size as nat, i)
        }),
{
    let ghost es = elems@.map_values(|e: String| e@);
    let ranges = chunk_ranges(elems.len(), size);
    let mut pieces: Vec<String> = Vec::new();
    let mut i: usize = 0;
    proof {
        lemma_chunks_tile(elems.len() as nat, size as nat);
    }
    while i < ranges.len()
        invariant
            size > 0,
            es == elems@.map_values(|e: String| e@),
            ranges@.len() == (es.len() + size - 1) / (size as int),
            forall|j: int| 0 <= j < ranges@.len() ==> (#[trigger] ranges@[j]).0 == chunk_bounds(es.len(), size as nat, j).0
                && ranges@[j].1 == chunk_bounds(es.len(), size as nat, j).1,
            forall|j: int| 0 <= j < ranges@.len() ==> #[trigger] chunk_bounds(es.len(), size as nat, j).0 < chunk_bounds(es.len(), size as nat, j).1,
            forall|j: int| 0 <= j < ranges@.len() ==> 0 <= #[trigger] chunk_bounds(es.len(), size as nat, j).0 && chunk_bounds(es.len(), size as nat, j).1 <= es.len(),
            i <= ranges@.len(),
            pieces@.len() == i,
            forall|j: int| 0 <= j < i ==> (#[trigger] pieces@[j])@ == piece_text(es, size as nat, j),
        decreases ranges@.len() - i,
    {
        let (start, end) = ranges[i];
        assert(chunk_bounds(es.len(), size as nat, i as int).0 < chunk_bounds(es.len(), size as nat, i as int).1);
        assert(0 <= chunk_bounds(es.len(), size as nat, i as int).0);
        proof {
            reveal_strlit("[");
        }
        let mut text = String::from_str("[");
        let mut k: usize = start;
        assert(es.subrange(start as int, start as int) =~= Seq::<Seq<char>>::empty());
        while k < end
            invariant
                start < end <= elems@.len(),
                es == elems@.map_values(|e: String| e@),
                start <= k <= end,
                text@ == seq!['['] + comma_list(es.subrange(start as int, k as int)),
            decreases end - k,
        {
            let ghost before = es.subrange(start as int, k as int);
            assert(es.subrange(start as int, k as int + 1) =~= before.push(es[k as int]));
            assert(before.push(es[k as int]).drop_last() =~= before);
            assert(elems@[k as int]@ == es[k as int]);
            proof {
                reveal_strlit(",");
            }
            if k > start {
                text.append(",");
            }
            text.append(elems[k].as_str());
            k += 1;
        }
        proof {
            reveal_strlit("]");
        }
        text.append("]");
        assert(text@ == piece_text(es, size as nat, i as int));
        let ghost before_pieces = pieces@;
        pieces.push(text);
        assert forall|j: int| 0 <= j < i + 1 implies (#[trigger] pieces@[j])@ == piece_text(es, size as nat, j) by {
            if j < i {
                assert(pieces@[j] == before_pieces[j]);
            }
        }
        i += 1;
    }
    pieces
}

/// The JSON texts of the pieces of the JSON array `text`, split as
/// [`chunk_size`] sets the piece size. None where the text is not a JSON
/// array or the piece size comes to zero.
pub fn split_json_array(text: &str, split_amount: Option<usize>, split_size: Option<usize>) -> (pieces: Option<Vec<String>>)
    requires
        !(split_amount is Some && split_size is Some),
        split_amount matches Some(n) ==> n > 0,
    ensures
        match json_array_elements_of(text@) {
            None => pieces is None,
            Some(es) => {
                let size = chunk_size_for(split_amount, split_size, es.len());
                if size == 0 {
                    pieces is None
                } else {
                    pieces matches Some(v) && v@.len() == (es.len() + size - 1) / (size as int) && forall|i: int|
                        0 <= i < v@.len() ==> (#[trigger] v@[i])@ == piece_text(es, size, i)
                }
            },
        },
{
    let elems = match json_array_elements(text) {
        Some(v) => v,
        None => return None,
    };
    let size = chunk_size(split_amount, split_size, elems.len());
    if size == 0 {
        return None;
    }
    Some(split_elements(&elems, size))
}

/// The pieces tile the array: the first starts at zero, each starts where
/// the one before ends, none is empty, and the last ends at the array's end.
pub proof fn lemma_chunks_tile(len: nat, size: nat)
    requires
        size > 0,
    ensures
        ({
            let count = (len + size - 1) / (size as int);
            &&& count > 0 ==> chunk_bounds(len, size, 0).0 == 0
            &&& forall|i: int| 0 <= i < count - 1 ==> #[trigger] chunk_bounds(len, size, i).1 == chunk_bounds(len, size, i + 1).0
            &&& forall|i: int| 0 <= i < count ==> #[trigger] chunk_bounds(len, size, i).0 < chunk_bounds(len, size, i).1
            &&& count > 0 ==> chunk_bounds(len, size, count - 1).1 == len
        }),
{
    let count = (len + size - 1) / (size as int);
    vstd::arithmetic::div_mod::lemma_fundamental_div_mod(len + size - 1, size as int);
    let r = (len + size - 1) % (size as int);
    assert(0 <= r < size);
    assert(count * size == len + size - 1 - r) by (nonlinear_arith)
        requires
            len + size - 1 == size * count + r,
    ;
    assert forall|i: int| 0 <= i < count implies #[trigger] chunk_bounds(len, size, i).0 < chunk_bounds(len, size, i).1 by {
        assert(i * size <= (count - 1) * size) by (nonlinear_arith)
            requires
                i <= count - 1,
                size > 0,
        ;
        assert((count - 1) * size == count * size - size) by (nonlinear_arith);
    }
    assert forall|i: int| 0 <= i < count - 1 implies #[trigger] chunk_bounds(len, size, i).1 == chunk_bounds(
        len,
        size,
        i + 1,
    ).0 by {
        assert((i + 1) * size == i * size + size) by (nonlinear_arith);
        assert((i + 1) * size <= (count - 1) * size) by (nonlinear_arith)
            requires
                i + 1 <= count - 1,
                size > 0,
        ;
        assert((count - 1) * size == count * size - size) by (nonlinear_arith);
    }
    if count > 0 {
        assert(0 * (size as int) == 0);
        assert((count - 1) * size == count * size - size) by (nonlinear_arith);
    }
}

} // verus!
