//! The blob stream driver: reads frame after frame from the input,
//! hands each decoded blob to a visitor, turns the clean end of input
//! into normal termination, and routes every other error through the
//! visitor's `handle_error`, which decides whether to stop.

use vstd::prelude::*;
use crate::blob::Blob;
use crate::error::PbfParseError;
use crate::visitor::BlobEvent;
use crate::visitor::BlobVisitor;

verus! {

/// Drives a blob visitor over a whole file. Each `accept` starts over
/// at the beginning of the same bytes, so one reader serves several
/// passes.
pub struct BlobReader {
    data: Vec<u8>,
}

impl View for BlobReader {
    type V = Seq<u8>;

    closed spec fn view(&self) -> Seq<u8> {
        self.data@
    }
}

impl BlobReader {
    /// Wraps a file's bytes.
    pub fn from(data: Vec<u8>) -> (r: BlobReader)
        ensures
            r@ == data@,
    {
        BlobReader { data }
    }

    /// The wrapped bytes.
    pub fn input(&self) -> (r: &[u8])
        ensures
            r@ == self@,
    {
        self.data.as_slice()
    }

    /// Walks the file once; an error from `end` is reported once through
    /// `handle_error`. The input is left as it was, so a second `accept`
    /// sees the same file. On empty input the visitor sees nothing but
    /// its `end` callback (and one `handle_error` if that `end` itself
    /// fails).
    pub fn accept<BV: BlobVisitor>(&mut self, visitor: &mut BV)
        ensures
            *final(self) == *old(self),
            old(visitor).events().is_prefix_of(final(visitor).events()),
            old(self)@.len() == 0 ==> ({
                let dn = final(visitor).events();
                let d0 = old(visitor).events();
                &&& d0.len() < dn.len() <= d0.len() + 2
                &&& (dn[d0.len() as int] matches BlobEvent::StreamEnded { result })
                &&& (dn.len() == d0.len() + 2 ==> ((dn[
                    d0.len() as int
                ] matches BlobEvent::StreamEnded { result } && result is Err) && dn[
                    d0.len() as int + 1
                ] is ErrorSeen))
            }),
    {
        let ghost d0 = old(visitor).events();
        let ghost il = self@.len();
        let r = self.try_accept(visitor);
        match r {
            Err(e) => {
                let stop = visitor.handle_error(&e);
                proof {
                    assert(visitor.events().take(d0.len() as int) =~= d0);
                    if il == 0 {
                        assert(visitor.events()[d0.len() as int] == (BlobEvent::StreamEnded {
                            result: Err(e),
                        }));
                        assert(visitor.events()[d0.len() as int + 1] == (BlobEvent::ErrorSeen {
                            error: e,
                            stop,
                        }));
                    }
                }
            },
            _ => {
                proof {
                    assert(visitor.events().take(d0.len() as int) =~= d0);
                }
            },
        }
    }

    fn try_accept<BV: BlobVisitor>(&mut self, visitor: &mut BV) -> (r: Result<
        (),
        PbfParseError,
    >)
        ensures
            *final(self) == *old(self),
            ({
                let d0 = old(visitor).events();
                let dn = final(visitor).events();
                &&& dn.len() > d0.len()
                &&& dn.take(d0.len() as int) == d0
                &&& dn.last() == BlobEvent::StreamEnded { result: r }
                &&& (old(self)@.len() == 0 ==> dn == d0.push(
                    BlobEvent::StreamEnded { result: r },
                ))
            }),
    {
        let ghost d0 = old(visitor).events();
        let data = self.data.as_slice();
        let mut pos: usize = 0;
        loop
            invariant
                pos <= data@.len(),
                data@ == old(self)@,
                *self == *old(self),
                d0 == old(visitor).events(),
                d0.len() <= visitor.events().len(),
                visitor.events().take(d0.len() as int) == d0,
                old(self)@.len() == 0 ==> visitor.events() == d0,
            decreases data@.len() - pos,
        {
            let (result, resume) = Blob::parse_advancing(data, pos);
            match result {
                Err(PbfParseError::Eof) => {
                    break ;
                },
                Err(ref e) => {
                    let stop = visitor.handle_error(e);
                    proof {
                        assert(visitor.events().take(d0.len() as int) =~= d0);
                    }
                    if stop {
                        break ;
                    }
                    pos = resume;
                },
                Ok((blob, _next)) => {
                    let res = visitor.visit_blob(&blob);
                    proof {
                        assert(visitor.events().take(d0.len() as int) =~= d0);
                    }
                    match res {
                        Err(ref e) => {
                            let stop = visitor.handle_error(e);
                            proof {
                                assert(visitor.events().take(d0.len() as int) =~= d0);
                            }
                            if stop {
                                break ;
                            }
                        },
                        Ok(()) => {},
                    }
                    pos = resume;
                },
            }
        }
        let r = visitor.end();
        proof {
            assert(visitor.events().take(d0.len() as int) =~= d0);
        }
        r
    }
}

} // verus!
