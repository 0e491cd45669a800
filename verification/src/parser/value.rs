//! Recursive-descent value parsing.
use crate::error::BlobfigError;
use crate::format::{SpecValue, spec_parse_entries, spec_parse_entry, spec_parse_items,
    spec_parse_value};
use crate::types::ValueView;
use crate::types::value::{borrowed_entries_view, borrowed_items_view, borrowed_view,
    lemma_borrowed_entries_view_push, lemma_borrowed_items_view_push};
use super::array::parse_array_body;
use super::file::parse_file_body;
use super::primitives::{i64_le, read_u8, u32_le, u64_le};
use super::string::{parse_key, parse_string};
use vstd::prelude::*;
use vstd::string::StringSliceAdditionalSpecFns;

verus! {

/// Parse a single object entry: a key, then the value it maps to.
pub fn parse_entry<'a>(data: &'a [u8], pos: usize) -> (r: Result<
    ((&'a str, ValueView<'a>), usize),
    BlobfigError,
>)
    ensures
        match r {
            Ok(((k, v), end)) => {
                &&& spec_parse_entry(data@, pos as int) == Ok::<_, BlobfigError>(
                    ((k.spec_bytes(), borrowed_view(v)), end as int),
                )
                &&& pos < end <= data@.len()
            },
            Err(e) => spec_parse_entry(data@, pos as int) == Err::<
                ((Seq<u8>, SpecValue), int),
                BlobfigError,
            >(e),
        },
    decreases data@.len() - pos, 1int,
{
    let (key, kend) = match parse_key(data, pos) {
        Ok(v) => v,
        Err(e) => return Err(e),
    };
    let (value, vend) = match parse_value(data, kend) {
        Ok(v) => v,
        Err(e) => return Err(e),
    };
    Ok(((key, value), vend))
}

/// Parse one value starting at `pos`: a tag byte, then the variant's
/// payload. Returns the borrowed view and the position just past the value,
/// or the error reading stops on; in either case the result is exactly what
/// [`spec_parse_value`] gives for these bytes.
#[verifier::loop_isolation(false)]
pub fn parse_value<'a>(data: &'a [u8], pos: usize) -> (r: Result<
    (ValueView<'a>, usize),
    BlobfigError,
>)
    ensures
        match r {
            Ok((v, end)) => {
                &&& spec_parse_value(data@, pos as int) == Ok::<_, BlobfigError>(
                    (v@, end as int),
                )
                &&& pos < end <= data@.len()
            },
            Err(e) => spec_parse_value(data@, pos as int) == Err::<
                (SpecValue, int),
                BlobfigError,
            >(e),
        },
    decreases data@.len() - pos, 0int,
{
    let (tag, p1) = match read_u8(data, pos) {
        Ok(v) => v,
        Err(e) => return Err(e),
    };
    proof {
        assert(data@.subrange(pos as int, pos as int + 1)[0] == data@[pos as int]);
    }
    if tag == 0x01 {
        let (b, p2) = match read_u8(data, p1) {
            Ok(v) => v,
            Err(e) => return Err(e),
        };
        proof {
            assert(data@.subrange(p1 as int, p1 as int + 1)[0] == data@[p1 as int]);
        }
        Ok((ValueView::Bool(b != 0), p2))
    } else if tag == 0x02 {
        let (x, p2) = match i64_le(data, p1) {
            Ok(v) => v,
            Err(e) => return Err(e),
        };
        Ok((ValueView::Int(x), p2))
    } else if tag == 0x03 {
        let (bits, p2) = match u64_le(data, p1) {
            Ok(v) => v,
            Err(e) => return Err(e),
        };
        Ok((ValueView::Float(bits), p2))
    } else if tag == 0x04 {
        let (s, p2) = match parse_string(data, p1) {
            Ok(v) => v,
            Err(e) => return Err(e),
        };
        Ok((ValueView::String(s), p2))
    } else if tag == 0x05 {
        let (a, p2) = match parse_array_body(data, p1) {
            Ok(v) => v,
            Err(e) => return Err(e),
        };
        Ok((ValueView::Array(a), p2))
    } else if tag == 0x06 {
        let (f, p2) = match parse_file_body(data, p1) {
            Ok(v) => v,
            Err(e) => return Err(e),
        };
        Ok((ValueView::File(f), p2))
    } else if tag == 0x07 {
        let (cnt, p2) = match u32_le(data, p1) {
            Ok(v) => v,
            Err(e) => return Err(e),
        };
        let mut entries: Vec<(&'a str, ValueView<'a>)> = Vec::new();
        let mut cur: usize = p2;
        let mut i: u32 = 0;
        while i < cnt
            invariant
                i <= cnt,
                p2 <= cur <= data@.len(),
                (match spec_parse_entries(data@, cur as int, (cnt - i) as nat) {
                    Ok(rest_end) => spec_parse_entries(data@, p2 as int, cnt as nat) == Ok::<
                        _,
                        BlobfigError,
                    >((borrowed_entries_view(entries@) + rest_end.0, rest_end.1)),
                    Err(e) => spec_parse_entries(data@, p2 as int, cnt as nat) == Err::<
                        (Seq<(Seq<u8>, SpecValue)>, int),
                        BlobfigError,
                    >(e),
                }),
            decreases cnt - i,
        {
            let ghost old_entries = entries@;
            let ghost old_cur = cur as int;
            let ((key, value), vend) = match parse_entry(data, cur) {
                Ok(v) => v,
                Err(e) => {
                    proof {
                        assert(spec_parse_entries(data@, cur as int, (cnt - i) as nat)
                            == Err::<(Seq<(Seq<u8>, SpecValue)>, int), BlobfigError>(e));
                    }
                    return Err(e);
                },
            };
            proof {
                lemma_borrowed_entries_view_push(entries@, key, value);
            }
            entries.push((key, value));
            cur = vend;
            i = i + 1;
            proof {
                let m = (cnt - i + 1) as nat;
                if spec_parse_entries(data@, cur as int, (cnt - i) as nat) is Ok {
                    let rest = spec_parse_entries(data@, cur as int, (cnt - i) as nat)->Ok_0.0;
                    assert(borrowed_entries_view(old_entries) + (seq![
                        (key.spec_bytes(), borrowed_view(value)),
                    ] + rest) =~= borrowed_entries_view(entries@) + rest);
                }
            }
        }
        proof {
            assert(borrowed_entries_view(entries@) + Seq::<(Seq<u8>, SpecValue)>::empty()
                =~= borrowed_entries_view(entries@));
        }
        Ok((ValueView::Object(entries), cur))
    } else if tag == 0x08 {
        let (cnt, p2) = match u32_le(data, p1) {
            Ok(v) => v,
            Err(e) => return Err(e),
        };
        let mut items: Vec<ValueView<'a>> = Vec::new();
        let mut cur: usize = p2;
        let mut i: u32 = 0;
        while i < cnt
            invariant
                i <= cnt,
                p2 <= cur <= data@.len(),
                (match spec_parse_items(data@, cur as int, (cnt - i) as nat) {
                    Ok(rest_end) => spec_parse_items(data@, p2 as int, cnt as nat) == Ok::<
                        _,
                        BlobfigError,
                    >((borrowed_items_view(items@) + rest_end.0, rest_end.1)),
                    Err(e) => spec_parse_items(data@, p2 as int, cnt as nat) == Err::<
                        (Seq<SpecValue>, int),
                        BlobfigError,
                    >(e),
                }),
            decreases cnt - i,
        {
            let ghost old_items = items@;
            let (value, vend) = match parse_value(data, cur) {
                Ok(v) => v,
                Err(e) => {
                    proof {
                        assert(spec_parse_items(data@, cur as int, (cnt - i) as nat)
                            == Err::<(Seq<SpecValue>, int), BlobfigError>(e));
                    }
                    return Err(e);
                },
            };
            proof {
                lemma_borrowed_items_view_push(items@, value);
            }
            items.push(value);
            cur = vend;
            i = i + 1;
            proof {
                if spec_parse_items(data@, cur as int, (cnt - i) as nat) is Ok {
                    let rest = spec_parse_items(data@, cur as int, (cnt - i) as nat)->Ok_0.0;
                    assert(borrowed_items_view(old_items) + (seq![borrowed_view(value)] + rest)
                        =~= borrowed_items_view(items@) + rest);
                }
            }
        }
        proof {
            assert(borrowed_items_view(items@) + Seq::<SpecValue>::empty() =~= borrowed_items_view(
                items@,
            ));
        }
        Ok((ValueView::List(items), cur))
    } else {
        Err(BlobfigError::InvalidValueTag { offset: pos, tag })
    }
}

} // verus!
