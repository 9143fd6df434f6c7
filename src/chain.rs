use vstd::prelude::*;

use crate::block_header::{header_hash, pow_ok, BlockHeader, HeaderModel};
use crate::error::CustomError;
use crate::headers::Headers;
use crate::parser::bytes_equal;

verus! {

/// Each header names the hash of the one before it.
pub open spec fn chained(hs: Seq<HeaderModel>) -> bool {
    forall|i: int| 0 < i < hs.len() ==> (#[trigger] hs[i]).prev_block_hash == header_hash(hs[i - 1])
}

/// Every header of `page` names the hash of the header before it, the
/// first one the tip of `chain` (when the chain is not empty).
pub open spec fn page_links(chain: Seq<HeaderModel>, page: Seq<HeaderModel>) -> bool {
    chained(chain + page)
}

/// Every header of `page` passes proof of work.
pub open spec fn page_pow_ok(page: Seq<HeaderModel>) -> bool {
    forall|i: int| 0 <= i < page.len() ==> pow_ok(header_hash(#[trigger] page[i]), page[i].bits)
}

/// The validated header chain of the node, from its first header to the tip.
pub struct HeaderChain {
    headers: Vec<BlockHeader>,
}

impl View for HeaderChain {
    type V = Seq<HeaderModel>;

    closed spec fn view(&self) -> Seq<HeaderModel> {
        self.headers@.map_values(|h: BlockHeader| h@)
    }
}

impl HeaderChain {
    pub open spec fn wf(&self) -> bool {
        chained(self@)
    }

    /// An empty chain.
    pub fn new() -> (r: Self)
        ensures
            r@ == Seq::<HeaderModel>::empty(),
            r.wf(),
    {
        let r = HeaderChain { headers: Vec::new() };
        assert(r@ =~= Seq::<HeaderModel>::empty());
        r
    }

    /// The number of headers in the chain.
    pub fn len(&self) -> (r: usize)
        ensures
            r == self@.len(),
    {
        self.headers.len()
    }

    /// The hash of the tip, if the chain has a header.
    pub fn tip_hash(&self) -> (r: Option<Vec<u8>>)
        ensures
            self@.len() == 0 ==> r is None,
            self@.len() > 0 ==> r is Some && r->Some_0@ == header_hash(self@.last()),
    {
        let n = self.headers.len();
        if n == 0 {
            None
        } else {
            Some(self.headers[n - 1].hash())
        }
    }

    /// Appends a page atomically: every header must chain from the one
    /// before it (the first from the tip) and pass proof of work; otherwise
    /// the chain is left as it was.
    pub fn append_headers(&mut self, page: Headers) -> (r: Result<(), CustomError>)
        requires
            old(self).wf(),
        ensures
            final(self).wf(),
            !page_links(old(self)@, page@) ==> r == Err::<(), CustomError>(
                CustomError::HeaderChainBroken,
            ) && final(self)@ == old(self)@,
            page_links(old(self)@, page@) && !page_pow_ok(page@) ==> r == Err::<(), CustomError>(
                CustomError::HeaderInvalidPoW,
            ) && final(self)@ == old(self)@,
            page_links(old(self)@, page@) && page_pow_ok(page@) ==> r is Ok && final(self)@ == old(
                self,
            )@ + page@,
    {
        let ghost c = self@;
        let n = page.headers.len();
        let mut prev: Option<Vec<u8>> = self.tip_hash();
        let mut i: usize = 0;
        while i < n
            invariant
                n == page@.len(),
                i <= n,
                self@ == c,
                chained(c),
                chained(c + page@.take(i as int)),
                i == 0 ==> (c.len() == 0 ==> prev is None),
                i == 0 && c.len() > 0 ==> prev is Some && prev->Some_0@ == header_hash(c.last()),
                i > 0 ==> prev is Some && prev->Some_0@ == header_hash(page@[i - 1]),
            decreases n - i,
        {
            let h = &page.headers[i];
            let ghost cp = c + page@.take(i as int);
            let ghost cq = c + page@.take(i + 1);
            assert(cq =~= cp.push(page@[i as int]));
            match &prev {
                Some(p) => {
                    if !bytes_equal(p, &h.prev_block_hash) {
                        assert(cq[cp.len() as int] == page@[i as int]);
                        assert(cq[cp.len() - 1] == cp.last());
                        if i > 0 {
                            assert(cp.last() == page@[i - 1]);
                        }
                        assert(cq[cp.len() as int].prev_block_hash != header_hash(
                            cq[cp.len() - 1],
                        ));
                        assert(!chained(cq));
                        assert(cq =~= (c + page@).take(cq.len() as int));
                        proof {
                            if chained(c + page@) {
                                lemma_prefix_chained(c + page@, cq);
                            }
                        }
                        return Err(CustomError::HeaderChainBroken);
                    }
                    if i > 0 {
                        assert(cp.last() == page@[i - 1]);
                    }
                },
                None => {},
            }
            assert forall|k: int| 0 < k < cq.len() implies (#[trigger] cq[k]).prev_block_hash
                == header_hash(cq[k - 1]) by {
                if k < cp.len() {
                    assert(cq[k] == cp[k] && cq[k - 1] == cp[k - 1]);
                }
            }
            prev = Some(h.hash());
            i = i + 1;
        }
        assert(page@.take(n as int) =~= page@);
        let mut j: usize = 0;
        while j < n
            invariant
                n == page@.len(),
                j <= n,
                self@ == c,
                chained(c),
                page_links(c, page@),
                forall|k: int| 0 <= k < j ==> pow_ok(header_hash(#[trigger] page@[k]), page@[k].bits),
            decreases n - j,
        {
            if !page.headers[j].validate() {
                assert(page@[j as int] == page.headers@[j as int]@);
                assert(!pow_ok(header_hash(page@[j as int]), page@[j as int].bits));
                return Err(CustomError::HeaderInvalidPoW);
            }
            j = j + 1;
        }
        let Headers { headers: mut new_headers } = page;
        self.headers.append(&mut new_headers);
        assert(self@ =~= c + page@);
        Ok(())
    }
}

/// Any prefix of a chained sequence is chained.
proof fn lemma_prefix_chained(whole: Seq<HeaderModel>, prefix: Seq<HeaderModel>)
    requires
        prefix.len() <= whole.len(),
        prefix == whole.take(prefix.len() as int),
        chained(whole),
    ensures
        chained(prefix),
{
    assert forall|i: int| 0 < i < prefix.len() implies (#[trigger] prefix[i]).prev_block_hash
        == header_hash(prefix[i - 1]) by {
        assert(prefix[i] == whole[i] && prefix[i - 1] == whole[i - 1]);
    }
}

/// Chain contiguity: appending a page that links to a contiguous chain
/// keeps every header naming the hash of the one before it.
pub proof fn lemma_append_keeps_chain(chain: Seq<HeaderModel>, page: Seq<HeaderModel>)
    requires
        chained(chain),
        page_links(chain, page),
    ensures
        forall|i: int|
            0 <= i < chain.len() + page.len() - 1 ==> #[trigger] (chain + page)[i + 1].prev_block_hash
                == header_hash((chain + page)[i]),
{
    assert forall|i: int| 0 <= i < chain.len() + page.len() - 1 implies #[trigger] (chain
        + page)[i + 1].prev_block_hash == header_hash((chain + page)[i]) by {
        assert((chain + page)[i + 1].prev_block_hash == header_hash((chain + page)[(i + 1) - 1]));
    }
}

} // verus!
