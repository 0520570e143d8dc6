use vstd::prelude::*;
use crate::assets::{RawAssets, removed};
use crate::error::Error;
use crate::paths::{resolve_uri, resolved};

verus! {

/// Where a buffer's bytes come from.
#[derive(Debug, Clone)]
pub enum BufferSource {
    /// The binary blob that travels with the document.
    Bin,
    /// A data URL, or a path relative to the document.
    Uri(String),
}

/// A buffer as the document declares it.
#[derive(Debug, Clone)]
pub struct BufferDesc {
    pub source: BufferSource,
    /// The byte length the document declares.
    pub length: usize,
}

/// The number of zero bytes that bring a length of `n` to a multiple of 4.
pub open spec fn pad_len(n: nat) -> nat {
    ((4 - n % 4) % 4) as nat
}

/// `s` followed by the zero bytes that make its length a multiple of 4.
pub open spec fn padded(s: Seq<u8>) -> Seq<u8> {
    s + Seq::new(pad_len(s.len()), |i: int| 0u8)
}

/// The view of an optional byte vector.
pub open spec fn bytes_of(b: Option<Vec<u8>>) -> Option<Seq<u8>> {
    match b {
        Some(v) => Some(v@),
        None => None,
    }
}

/// Resolving one buffer against the blob and the store: the outcome, then the
/// blob and the store's entries that are left.
pub open spec fn resolve_one(
    desc: BufferDesc,
    base: Seq<char>,
    blob: Option<Seq<u8>>,
    entries: Seq<(Seq<char>, Seq<u8>)>,
) -> (Result<Seq<u8>, Error>, Option<Seq<u8>>, Seq<(Seq<char>, Seq<u8>)>) {
    let (fetched, blob2, entries2) = match desc.source {
        BufferSource::Uri(u) => {
            let (res, rest) = removed(entries, resolved(base, u@));
            (res, blob, rest)
        },
        BufferSource::Bin => match blob {
            Some(b) => (Ok(b), None, entries),
            None => (Err(Error::MissingEmbeddedData), None, entries),
        },
    };
    match fetched {
        Ok(d) => if d.len() < desc.length {
            (Err(Error::CorruptBufferData), blob2, entries2)
        } else {
            (Ok(padded(d)), blob2, entries2)
        },
        Err(e) => (Err(e), blob2, entries2),
    }
}

/// Resolving the buffers in order, stopping at the first failure.
pub open spec fn resolve_all(
    descs: Seq<BufferDesc>,
    base: Seq<char>,
    blob: Option<Seq<u8>>,
    entries: Seq<(Seq<char>, Seq<u8>)>,
) -> (Result<Seq<Seq<u8>>, Error>, Option<Seq<u8>>, Seq<(Seq<char>, Seq<u8>)>)
    decreases descs.len(),
{
    if descs.len() == 0 {
        (Ok(Seq::empty()), blob, entries)
    } else {
        let (prev, blob1, entries1) = resolve_all(descs.drop_last(), base, blob, entries);
        match prev {
            Err(e) => (Err(e), blob1, entries1),
            Ok(done) => {
                let (r, blob2, entries2) = resolve_one(descs.last(), base, blob1, entries1);
                match r {
                    Ok(d) => (Ok(done.push(d)), blob2, entries2),
                    Err(e) => (Err(e), blob2, entries2),
                }
            },
        }
    }
}

/// Appends zero bytes until the length of `data` is a multiple of 4.
pub fn pad_to_four(data: &mut Vec<u8>)
    ensures
        final(data)@ == padded(old(data)@),
{
    let ghost start = data@;
    while data.len() % 4 != 0
        invariant
            start.len() <= data@.len() <= start.len() + pad_len(start.len()),
            data@ == start + Seq::new((data@.len() - start.len()) as nat, |i: int| 0u8),
            data@.len() % 4 != 0 ==> data@.len() < start.len() + pad_len(start.len()),
        decreases start.len() + pad_len(start.len()) - data@.len(),
    {
        data.push(0);
        assert(data@ =~= start + Seq::new((data@.len() - start.len()) as nat, |i: int| 0u8));
    }
    assert(data@ =~= padded(start));
}

/// Resolves one buffer: fetches its bytes (taking the blob, or removing the
/// store entry), checks the declared length and pads to a multiple of 4.
pub fn resolve_buffer(
    desc: &BufferDesc,
    base: &str,
    blob: &mut Option<Vec<u8>>,
    assets: &mut RawAssets,
) -> (r: Result<Vec<u8>, Error>)
    ensures
        ({
            let (res, blob2, entries2) = resolve_one(*desc, base@, bytes_of(*old(blob)), old(assets)@);
            &&& bytes_of(*final(blob)) == blob2
            &&& final(assets)@ == entries2
            &&& match r {
                Ok(d) => res == Ok::<Seq<u8>, Error>(d@),
                Err(e) => res == Err::<Seq<u8>, Error>(e),
            }
        }),
{
    let fetched = match &desc.source {
        BufferSource::Uri(u) => {
            let key = resolve_uri(base, u.as_str());
            assets.remove(key.as_str())
        },
        BufferSource::Bin => match blob.take() {
            Some(b) => Ok(b),
            None => Err(Error::MissingEmbeddedData),
        },
    };
    match fetched {
        Ok(mut d) => {
            if d.len() < desc.length {
                Err(Error::CorruptBufferData)
            } else {
                pad_to_four(&mut d);
                Ok(d)
            }
        },
        Err(e) => Err(e),
    }
}

proof fn lemma_failure_stays(
    descs: Seq<BufferDesc>,
    k: int,
    base: Seq<char>,
    blob: Option<Seq<u8>>,
    entries: Seq<(Seq<char>, Seq<u8>)>,
)
    requires
        0 <= k <= descs.len(),
        resolve_all(descs.subrange(0, k), base, blob, entries).0 is Err,
    ensures
        resolve_all(descs, base, blob, entries) == resolve_all(descs.subrange(0, k), base, blob, entries),
    decreases descs.len(),
{
    if descs.len() == k {
        assert(descs.subrange(0, k) =~= descs);
    } else {
        assert(descs.drop_last().subrange(0, k) =~= descs.subrange(0, k));
        lemma_failure_stays(descs.drop_last(), k, base, blob, entries);
    }
}

/// Resolves every buffer of a document in order; the first failure ends the
/// work and is returned.
pub fn resolve_buffers(
    descs: &Vec<BufferDesc>,
    base: &str,
    blob: &mut Option<Vec<u8>>,
    assets: &mut RawAssets,
) -> (r: Result<Vec<Vec<u8>>, Error>)
    ensures
        ({
            let (res, blob2, entries2) = resolve_all(descs@, base@, bytes_of(*old(blob)), old(assets)@);
            &&& bytes_of(*final(blob)) == blob2
            &&& final(assets)@ == entries2
            &&& match r {
                Ok(v) => res == Ok::<Seq<Seq<u8>>, Error>(v@.map_values(|d: Vec<u8>| d@)),
                Err(e) => res == Err::<Seq<Seq<u8>>, Error>(e),
            }
        }),
{
    let mut out: Vec<Vec<u8>> = Vec::new();
    let mut i: usize = 0;
    assert(descs@.subrange(0, 0) =~= Seq::<BufferDesc>::empty());
    assert(out@.map_values(|d: Vec<u8>| d@) =~= Seq::<Seq<u8>>::empty());
    while i < descs.len()
        invariant
            i <= descs@.len(),
            ({
                let (res, blob2, entries2) = resolve_all(
                    descs@.subrange(0, i as int),
                    base@,
                    bytes_of(*old(blob)),
                    old(assets)@,
                );
                &&& bytes_of(*blob) == blob2
                &&& assets@ == entries2
                &&& res == Ok::<Seq<Seq<u8>>, Error>(out@.map_values(|d: Vec<u8>| d@))
            }),
        decreases descs.len() - i,
    {
        let ghost prefix = descs@.subrange(0, i as int + 1);
        assert(prefix.drop_last() =~= descs@.subrange(0, i as int));
        assert(prefix.last() == descs@[i as int]);
        match resolve_buffer(&descs[i], base, blob, assets) {
            Ok(d) => {
                let ghost before = out@;
                let ghost dv = d@;
                out.push(d);
                assert(out@.map_values(|d: Vec<u8>| d@) =~= before.map_values(|d: Vec<u8>| d@).push(dv));
            },
            Err(e) => {
                proof {
                    lemma_failure_stays(descs@, i + 1, base@, bytes_of(*old(blob)), old(assets)@);
                }
                return Err(e);
            },
        }
        i = i + 1;
    }
    assert(descs@.subrange(0, i as int) =~= descs@);
    Ok(out)
}

} // verus!
