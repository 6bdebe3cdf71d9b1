//! Turning one file's bytes into one stored layer.
//!
//! The shell reads a file and hands its bytes and its file name here.
//! On a successful decode the store gains exactly one layer — samples,
//! display name and visibility appended together — and on any decode
//! error the store is left untouched: no partial layer is ever visible,
//! and one bad file never disturbs the layers already loaded.

use vstd::prelude::*;

use crate::parser::{parse, spec_parse, ParseError, ParseOutcome};
use crate::store::LayerStore;

verus! {

/// The bytes of `.DAT`.
pub open spec fn dat_suffix() -> Seq<u8> {
    seq![46u8, 68u8, 65u8, 84u8]
}

/// The file name with every trailing `.DAT` removed.
pub open spec fn strip_dat(name: Seq<u8>) -> Seq<u8>
    decreases name.len(),
{
    if name.len() >= 4 && name.subrange(name.len() - 4, name.len() as int) == dat_suffix() {
        strip_dat(name.subrange(0, name.len() - 4))
    } else {
        name
    }
}

/// A layer's display name: the file name without its `.DAT` suffix, then
/// the two header parameters, as `<base> he=<he> gamma=<gamma>`.
pub open spec fn layer_name_of(file_name: Seq<u8>, he: Seq<u8>, gamma: Seq<u8>) -> Seq<u8> {
    strip_dat(file_name) + seq![32u8, 104u8, 101u8, 61u8] + he + seq![
        32u8,
        103u8,
        97u8,
        109u8,
        109u8,
        97u8,
        61u8,
    ] + gamma
}

/// Appends a run of bytes.
fn append_bytes(dst: &mut Vec<u8>, src: &[u8])
    ensures
        final(dst)@ == old(dst)@ + src@,
{
    dst.extend_from_slice(src);
    proof {
        assert forall|i: int| 0 <= i < dst@.len() implies dst@[i] == (old(dst)@ + src@)[i] by {
            if i >= old(dst)@.len() {
                assert(cloned::<u8>(src@[i - old(dst)@.len()], dst@[i]));
            }
        }
        assert(dst@ =~= old(dst)@ + src@);
    }
}

/// Builds a layer's display name from the file name and the two header
/// parameters.
pub fn build_layer_name(file_name: &[u8], he: &Vec<u8>, gamma: &Vec<u8>) -> (r: Vec<u8>)
    ensures
        r@ == layer_name_of(file_name@, he@, gamma@),
{
    let mut base = vstd::slice::slice_to_vec(file_name);
    loop
        invariant
            strip_dat(file_name@) == strip_dat(base@),
        ensures
            strip_dat(file_name@) == base@,
        decreases base@.len(),
    {
        let n = base.len();
        if n >= 4 && base[n - 4] == 46 && base[n - 3] == 68 && base[n - 2] == 65 && base[n - 1]
            == 84 {
            let ghost prev = base@;
            proof {
                assert(prev.subrange(n - 4, n as int) =~= dat_suffix());
            }
            base.truncate(n - 4);
            proof {
                assert(strip_dat(prev) == strip_dat(base@));
            }
        } else {
            proof {
                if base@.len() >= 4 {
                    let tail = base@.subrange(n - 4, n as int);
                    if tail == dat_suffix() {
                        assert(base@[n - 4] == tail[0] && base@[n - 3] == tail[1] && base@[n - 2]
                            == tail[2] && base@[n - 1] == tail[3]);
                        assert(false);
                    }
                }
                assert(strip_dat(base@) == base@);
            }
            break;
        }
    }
    let mut r = base;
    r.push(32);
    r.push(104);
    r.push(101);
    r.push(61);
    append_bytes(&mut r, he.as_slice());
    r.push(32);
    r.push(103);
    r.push(97);
    r.push(109);
    r.push(109);
    r.push(97);
    r.push(61);
    append_bytes(&mut r, gamma.as_slice());
    proof {
        assert(r@ =~= layer_name_of(file_name@, he@, gamma@));
    }
    r
}

/// Decodes a file's bytes and, on success, appends the decoded run as one
/// new layer — samples, name and visibility together — returning its
/// position. On any decode error the store is left exactly as it was: one
/// bad file never disturbs the layers already loaded, and no partial
/// layer is ever added.
pub fn ingest_contents(store: &mut LayerStore, contents: &[u8], file_name: &[u8]) -> (r: Result<
    usize,
    ParseError,
>)
    requires
        old(store).wf(),
    ensures
        final(store).wf(),
        spec_parse(contents@) matches ParseOutcome::Parsed(p) ==> (r == Ok::<usize, ParseError>(
            old(store)@.samples.len() as usize,
        ) && final(store)@.samples == old(store)@.samples.push(p.samples) && final(store)@.visible
            == old(store)@.visible.push(true) && final(store)@.names == old(store)@.names.push(
            layer_name_of(file_name@, p.he, p.gamma),
        )),
        spec_parse(contents@) == ParseOutcome::BadHeader ==> r == Err::<usize, ParseError>(
            ParseError::MalformedHeader,
        ) && final(store)@ == old(store)@,
        spec_parse(contents@) matches ParseOutcome::BadSample(i) ==> r == Err::<usize, ParseError>(
            ParseError::MalformedSample(i as usize),
        ) && final(store)@ == old(store)@,
{
    match parse(contents) {
        Ok(parsed) => {
            let name = build_layer_name(file_name, &parsed.he, &parsed.gamma);
            let idx = store.add_layer(parsed.samples, name);
            Ok(idx)
        },
        Err(e) => Err(e),
    }
}

} // verus!
