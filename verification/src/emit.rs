//! The build pipeline's back half: given a validated configuration and the
//! bytes read for each declared file, compress each asset as configured and
//! assemble the emitted map. A missing file or a codec fault aborts the
//! whole build — a partially-built map is never produced.

use crate::codec::{compress, payload_of};
use crate::config::{BuildConfig, BuildError, ErrorModel};
use crate::map::StaticMap;
use vstd::prelude::*;

verus! {

/// Index of the first file whose bytes could not be read, if any.
pub open spec fn first_none(reads: Seq<Option<Seq<u8>>>) -> Option<int>
    decreases reads.len(),
{
    if reads.len() == 0 {
        None
    } else if reads[0] is None {
        Some(0int)
    } else {
        match first_none(reads.drop_first()) {
            None => None,
            Some(i) => Some(i + 1),
        }
    }
}

proof fn lemma_first_none_at(reads: Seq<Option<Seq<u8>>>, i: int)
    requires
        0 <= i < reads.len(),
        reads[i] is None,
        forall|j: int| 0 <= j < i ==> reads[j] is Some,
    ensures
        first_none(reads) == Some(i),
    decreases i,
{
    if i != 0 {
        assert(reads[0] is Some);
        lemma_first_none_at(reads.drop_first(), i - 1);
    }
}

proof fn lemma_first_none_none(reads: Seq<Option<Seq<u8>>>)
    requires
        forall|j: int| 0 <= j < reads.len() ==> reads[j] is Some,
    ensures
        first_none(reads) is None,
    decreases reads.len(),
{
    if reads.len() != 0 {
        lemma_first_none_none(reads.drop_first());
    }
}

proof fn lemma_first_none_bounds(reads: Seq<Option<Seq<u8>>>)
    ensures
        (first_none(reads) matches Some(k) ==> 0 <= k < reads.len()),
    decreases reads.len(),
{
    if reads.len() != 0 && reads[0] is Some {
        lemma_first_none_bounds(reads.drop_first());
    }
}

proof fn lemma_first_none_past(reads: Seq<Option<Seq<u8>>>, i: int)
    requires
        0 <= i < reads.len(),
        forall|j: int| 0 <= j <= i ==> reads[j] is Some,
    ensures
        (first_none(reads) matches Some(k) ==> k > i),
    decreases i,
{
    if first_none(reads) matches Some(k) {
        if i > 0 {
            lemma_first_none_past(reads.drop_first(), i - 1);
        } else {
            lemma_first_none_bounds(reads.drop_first());
        }
    }
}

/// Assembles the declared map from a validated configuration and the bytes
/// read for each declared file (`None` marks a file that could not be
/// read). Every asset is stored, in declaration order, as the payload the
/// compression stage yields for it; the first unreadable file, or the first
/// codec fault, aborts the build with an error naming that file's path.
pub fn build_map(config: BuildConfig, reads: Vec<Option<Vec<u8>>>) -> (r: Result<
    StaticMap,
    BuildError,
>)
    requires
        config.wf(),
        reads.deep_view().len() == config@.files.len(),
    ensures
        (r matches Ok(m) ==> {
            &&& m.wf()
            &&& m.names() == config@.names
            &&& m.payloads().len() == config@.files.len()
            &&& first_none(reads.deep_view()) is None
            &&& forall|i: int|
                0 <= i < reads.deep_view().len() ==> m.payloads()[i] == payload_of(
                    reads.deep_view()[i]->Some_0,
                    config@.compression_level,
                    config@.algorithm,
                )
        }),
        (first_none(reads.deep_view()) is None && config@.compression_level == 0 ==> r is Ok),
        (config@.compression_level == 0 ==> (first_none(reads.deep_view()) matches Some(k)
            ==> r matches Err(e) && e@ == ErrorModel::MissingFile(config@.files[k]))),
        (r matches Err(e) ==> (match first_none(reads.deep_view()) {
            Some(k) => e@ == ErrorModel::MissingFile(config@.files[k]) || (exists|i: int|
                0 <= i < k && e@ == ErrorModel::CodecFailure(#[trigger] config@.files[i])),
            None => exists|i: int|
                0 <= i < config@.files.len() && e@ == ErrorModel::CodecFailure(
                    #[trigger] config@.files[i],
                ),
        })),
{
    let BuildConfig { names, files, compression_level, algorithm } = config;
    let n = files.len();
    proof {
        assert(n == config@.files.len());
        assert(reads@.len() == reads.deep_view().len());
    }
    let mut payloads: Vec<Vec<u8>> = Vec::new();
    let mut i: usize = 0;
    while i < n
        invariant
            n == files@.len(),
            n == config@.files.len(),
            files.deep_view() == config@.files,
            reads@.len() == n,
            reads.deep_view().len() == n,
            i <= n,
            payloads@.len() == i,
            forall|j: int| 0 <= j < i ==> reads.deep_view()[j] is Some,
            forall|j: int|
                0 <= j < i ==> payloads.deep_view()[j] == payload_of(
                    reads.deep_view()[j]->Some_0,
                    compression_level,
                    algorithm,
                ),
            compression_level == config@.compression_level,
            algorithm == config@.algorithm,
        decreases n - i,
    {
        proof {
            assert(reads.deep_view()[i as int] == reads@[i as int].deep_view());
            assert(files.deep_view()[i as int] == files@[i as int]@);
        }
        match &reads[i] {
            None => {
                proof {
                    assert(reads.deep_view()[i as int] is None);
                    lemma_first_none_at(reads.deep_view(), i as int);
                }
                return Err(BuildError::MissingFile(files[i].clone()));
            },
            Some(bytes) => {
                proof {
                    assert(reads@[i as int] matches Some(b) && b == *bytes);
                    assert(reads.deep_view()[i as int] == Some(bytes@));
                }
                match compress(bytes, compression_level, algorithm) {
                    Ok(payload) => {
                        let ghost prevv = payloads@;
                        let ghost prev = payloads.deep_view();
                        payloads.push(payload);
                        proof {
                            assert forall|j: int|
                                0 <= j <= i implies payloads.deep_view()[j] == payload_of(
                                reads.deep_view()[j]->Some_0,
                                compression_level,
                                algorithm,
                            ) by {
                                assert(payloads.deep_view()[j] == payloads@[j]@);
                                if j < i {
                                    assert(prev[j] == prevv[j]@);
                                    assert(payloads@[j] == prevv[j]);
                                } else {
                                    assert(payloads@[j] == payload);
                                }
                            }
                        }
                    },
                    Err(_) => {
                        let e = BuildError::CodecFailure(files[i].clone());
                        proof {
                            if first_none(reads.deep_view()) matches Some(k) {
                                lemma_first_none_past(reads.deep_view(), i as int);
                            }
                            assert(e@ == ErrorModel::CodecFailure(config@.files[i as int]));
                        }
                        return Err(e);
                    },
                }
            },
        }
        i = i + 1;
    }
    proof {
        lemma_first_none_none(reads.deep_view());
        assert(names.deep_view() == config@.names);
        assert(names.deep_view().len() == payloads.deep_view().len());
    }
    Ok(StaticMap::assemble(names, payloads))
}

} // verus!
