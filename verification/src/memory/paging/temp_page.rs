//! A page that is set aside to reach any one frame for a while.
//!
//! Mapping the page onto a frame gives a window through which the frame can
//! be read and written as a page table, also where the frame belongs to no
//! table of the address space in force.  The tables that the mapping itself
//! needs come from a pool of three frames that the page owns, so that
//! mapping it never calls into the allocator that it was made from.

use vstd::prelude::*;
use crate::memory::Frame;
use crate::memory::PAGE_SIZE;
use crate::memory::Page;
use crate::memory::VirtualAddress;
use crate::memory::frame_allocator::FrameAllocator;
use crate::memory::p1_index_of;
use crate::memory::paging::ActivePageTable;
use crate::memory::paging::PagingError;
use crate::memory::paging::entry::EntryFlags;
use crate::memory::paging::entry::FRAME_LIMIT;
use crate::memory::paging::entry::WRITABLE;
use crate::memory::paging::mapper::Mapper;
use crate::memory::paging::mapper::TlbFlush;
use crate::memory::paging::mapper::huge_on_way;
use crate::memory::paging::mapper::leaf_entry;
use crate::memory::paging::mapper::leaf_table;
use crate::memory::paging::mapper::maps_page;
use crate::memory::paging::mapper::on_partial_way;
use crate::memory::paging::mapper::only_absent_or_taken;
use crate::memory::paging::mapper::path_tables;
use crate::memory::paging::mapper::starved;
use crate::memory::paging::mapper::taken_between;
use crate::memory::paging::mapper::top_table;
use crate::memory::paging::mapper::translation;
use crate::memory::paging::mapper::unmap_outcome;
use crate::memory::paging::table::Level1;
use crate::memory::paging::table::Table;
use crate::memory::paging::table::lemma_table_flags;
use crate::memory::paging::table_entry;
use crate::memory::paging::table_error;

verus! {

/// `pinned` with the frames of the tables `tables`.
pub open spec fn pinned_with(pinned: Set<u64>, tables: (u64, u64, u64)) -> Set<u64> {
    pinned.insert(tables.0).insert(tables.1).insert(tables.2)
}

/// A pool of at most three frames.
pub struct TinyAllocator {
    first: Option<Frame>,
    second: Option<Frame>,
    third: Option<Frame>,
}

impl TinyAllocator {
    #[verifier::type_invariant]
    spec fn distinct(self) -> bool {
        &&& self.first.is_some() && self.second.is_some() ==> self.first != self.second
        &&& self.first.is_some() && self.third.is_some() ==> self.first != self.third
        &&& self.second.is_some() && self.third.is_some() ==> self.second != self.third
    }

    /// The frames in the pool.
    pub closed spec fn frames(&self) -> Set<u64> {
        given(self.first).union(given(self.second)).union(given(self.third))
    }

    /// A pool of the frames among `first`, `second` and `third`.  A frame
    /// that is given twice is held once.
    pub fn holding(first: Option<Frame>, second: Option<Frame>, third: Option<Frame>) -> (pool:
        TinyAllocator)
        ensures
            pool.frames() == given(first).union(given(second)).union(given(third)),
            pool.frames().finite(),
            pool.frames().len() <= 3,
    {
        let mut pool = TinyAllocator { first: None, second: None, third: None };
        assert(pool.frames() =~= Set::<u64>::empty());
        if let Some(frame) = first {
            pool.deallocate_frame(frame);
        }
        if let Some(frame) = second {
            pool.deallocate_frame(frame);
        }
        if let Some(frame) = third {
            pool.deallocate_frame(frame);
        }
        assert(pool.frames() =~= given(first).union(given(second)).union(given(third)));
        pool
    }

    /// A pool of the frames that three calls of `allocator` hand out: three
    /// frames, or fewer where a call hands out none.  The allocator loses the
    /// frames of the pool and no others; a pool of fewer than three frames
    /// means that the allocator answered one of the calls with none.
    pub fn new<A: FrameAllocator>(allocator: &mut A) -> (pool: TinyAllocator)
        ensures
            pool.frames().finite(),
            pool.frames().len() <= 3,
            forall|g: u64|
                #[trigger] final(allocator).available(g) == (old(allocator).available(g)
                    && !pool.frames().contains(g)),
            forall|g: u64| pool.frames().contains(g) ==> old(allocator).available(g),
            pool.frames().len() < 3 ==> exists|a: &mut A| #[trigger]
                call_ensures(A::allocate_frame, (a,), None::<Frame>) && (forall|g: u64| #[trigger]
                    a.available(g) ==> old(allocator).available(g)) && (forall|g: u64| #[trigger]
                    final(allocator).available(g) ==> final(a).available(g)),
    {
        let first = allocator.allocate_frame();
        let second = allocator.allocate_frame();
        let third = allocator.allocate_frame();
        proof {
            if first.is_some() && second.is_some() && third.is_some() {
                lemma_pool_size(first, second, third);
            }
        }
        TinyAllocator::holding(first, second, third)
    }
}

/// The set of the frame `frame`, where there is one; else the empty set.
pub open spec fn given(frame: Option<Frame>) -> Set<u64> {
    match frame {
        Some(f) => set![f.number],
        None => Set::<u64>::empty(),
    }
}

/// The frames of a pool with the fields `first`, `second` and `third`, no
/// two of which hold the same frame, are as many as the fields that hold a
/// frame.
proof fn lemma_pool_size(first: Option<Frame>, second: Option<Frame>, third: Option<Frame>)
    requires
        first.is_some() && second.is_some() ==> first != second,
        first.is_some() && third.is_some() ==> first != third,
        second.is_some() && third.is_some() ==> second != third,
    ensures
        given(first).union(given(second)).union(given(third)).finite(),
        given(first).union(given(second)).union(given(third)).len() == (if first.is_some() {
            1int
        } else {
            0int
        }) + (if second.is_some() {
            1int
        } else {
            0int
        }) + (if third.is_some() {
            1int
        } else {
            0int
        }),
{
    let none = Set::<u64>::empty();
    let one = match first {
        Some(f) => none.insert(f.number),
        None => none,
    };
    let two = match second {
        Some(f) => one.insert(f.number),
        None => one,
    };
    let three = match third {
        Some(f) => two.insert(f.number),
        None => two,
    };
    assert(given(first).union(given(second)).union(given(third)) =~= three);
}

impl FrameAllocator for TinyAllocator {
    /// A frame is available where it is in the pool.
    open spec fn available(&self, frame: u64) -> bool {
        self.frames().contains(frame)
    }

    /// Hands out a frame of the pool; `None` where the pool is empty.
    fn allocate_frame(&mut self) -> (frame: Option<Frame>)
        ensures
            frame.is_none() <==> old(self).frames() == Set::<u64>::empty(),
            frame.is_none() ==> final(self).frames() == old(self).frames(),
            frame matches Some(f) ==> final(self).frames() == old(self).frames().remove(f.number),
    {
        proof {
            use_type_invariant(&*self);
        }
        let mut frame: Option<Frame> = None;
        if self.first.is_some() {
            core::mem::swap(&mut frame, &mut self.first);
        } else if self.second.is_some() {
            core::mem::swap(&mut frame, &mut self.second);
        } else if self.third.is_some() {
            core::mem::swap(&mut frame, &mut self.third);
        }
        proof {
            if frame.is_some() {
                assert(old(self).frames().contains(frame.unwrap().number));
                assert(self.frames() =~= old(self).frames().remove(frame.unwrap().number));
            } else {
                assert(old(self).frames() =~= Set::<u64>::empty());
            }
        }
        frame
    }

    /// Puts `frame` into the pool.  A frame that is in the pool already, and
    /// a frame for which the pool has no room, as it holds three, is ignored.
    fn deallocate_frame(&mut self, frame: Frame)
        ensures
            old(self).frames().finite(),
            old(self).frames().len() <= 3,
            final(self).frames() == if old(self).frames().contains(frame.number) || old(self).frames().len() == 3 {
                old(self).frames()
            } else {
                old(self).frames().insert(frame.number)
            },
    {
        proof {
            use_type_invariant(&*self);
            lemma_pool_size(self.first, self.second, self.third);
        }
        let held = match &self.first {
            Some(f) => f.number == frame.number,
            None => false,
        } || match &self.second {
            Some(f) => f.number == frame.number,
            None => false,
        } || match &self.third {
            Some(f) => f.number == frame.number,
            None => false,
        };
        if !held {
            if self.first.is_none() {
                self.first = Some(frame);
            } else if self.second.is_none() {
                self.second = Some(frame);
            } else if self.third.is_none() {
                self.third = Some(frame);
            }
        }
        assert(self.frames() =~= if old(self).frames().contains(frame.number) || old(self).frames().len() == 3 {
            old(self).frames()
        } else {
            old(self).frames().insert(frame.number)
        });
    }
}

/// Whether the pool `pool` has what mapping the page with index `page`
/// takes on the machine `mapper`, whatever tables are missing on the way to
/// the entry of the page: three frames, each of which can be named in an
/// entry, is not pinned and holds neither the root table nor a table on the
/// way.
pub open spec fn pool_ready(pool: Set<u64>, mapper: Mapper, page: u64) -> bool {
    &&& pool.finite()
    &&& pool.len() == 3
    &&& forall|g: u64| #[trigger]
        pool.contains(g) ==> g < FRAME_LIMIT && g != mapper.root() && !mapper.pinned().contains(g)
            && !on_partial_way(mapper.words(), mapper.root(), page, g)
}

/// The error with which mapping the temporary page with index `page` on the
/// machine `mapper` is refused before a frame of the pool is asked for:
/// that of its translation, where it has none; that it is mapped already,
/// where it is mapped or its entry is not empty; and that a huge page lies
/// on the way to its entry.  `None` where none of these holds.
pub open spec fn window_error(mapper: Mapper, page: u64) -> Option<PagingError> {
    match translation(mapper.words(), mapper.root(), page) {
        Err(e) => Some(e),
        Ok(Some(_)) => Some(PagingError::PageAlreadyMapped),
        Ok(None) => if huge_on_way(mapper.words(), mapper.root(), page) {
            Some(PagingError::HugePage)
        } else if leaf_entry(mapper.words(), mapper.root(), page).is_some() && leaf_entry(
            mapper.words(),
            mapper.root(),
            page,
        ) != Some(0u64) {
            Some(PagingError::PageAlreadyMapped)
        } else {
            None
        },
    }
}

/// A page set aside for short-lived mappings, with the frames for the tables
/// that such a mapping needs.
pub struct TemporaryPage {
    page: Page,
    allocator: TinyAllocator,
}

impl TemporaryPage {
    /// The index of the page.
    pub closed spec fn page_index(&self) -> u64 {
        self.page.index()
    }

    /// The frames held for the tables of the mapping.
    pub closed spec fn pool(&self) -> Set<u64> {
        self.allocator.frames()
    }

    /// Sets `page` aside, and takes the frames that three calls of
    /// `allocator` hand out for the tables on the way to its entry.  The
    /// allocator loses the frames of the pool and no others.
    pub fn new<A: FrameAllocator>(page: Page, allocator: &mut A) -> (temporary_page: TemporaryPage)
        ensures
            temporary_page.page_index() == page.index(),
            temporary_page.pool().finite(),
            temporary_page.pool().len() <= 3,
            forall|g: u64|
                #[trigger] final(allocator).available(g) == (old(allocator).available(g)
                    && !temporary_page.pool().contains(g)),
            forall|g: u64| temporary_page.pool().contains(g) ==> old(allocator).available(g),
            temporary_page.pool().len() < 3 ==> exists|a: &mut A| #[trigger]
                call_ensures(A::allocate_frame, (a,), None::<Frame>) && (forall|g: u64| #[trigger]
                    a.available(g) ==> old(allocator).available(g)) && (forall|g: u64| #[trigger]
                    final(allocator).available(g) ==> final(a).available(g)),
    {
        TemporaryPage { page, allocator: TinyAllocator::new(allocator) }
    }

    /// Maps the page onto `frame`, writable, in the address space that
    /// `active_table` works on, and gives the address of the page.  The tables
    /// on the way to the entry of the page are pinned: while the page is
    /// mapped, no new table is put into their frames.  Refused where the page
    /// is mapped already.
    #[verifier::rlimit(30)]
    pub fn map(&mut self, frame: Frame, active_table: &mut ActivePageTable) -> (result: Result<
        VirtualAddress,
        PagingError,
    >)
        ensures
            final(self).page_index() == old(self).page_index(),
            final(active_table).mapper.root() == old(active_table).mapper.root(),
            final(active_table).mapper.pending() == old(active_table).mapper.pending(),
            final(active_table).mapper.words()[(old(active_table).mapper.root(), 511)] == old(active_table).mapper.words()[(old(active_table).mapper.root(), 511)],
            translation(
                old(active_table).mapper.words(),
                old(active_table).mapper.root(),
                old(self).page_index(),
            ) matches Err(e) ==> result == Err::<VirtualAddress, PagingError>(e),
            translation(
                old(active_table).mapper.words(),
                old(active_table).mapper.root(),
                old(self).page_index(),
            ) matches Ok(Some(_)) ==> result == Err::<VirtualAddress, PagingError>(
                PagingError::PageAlreadyMapped,
            ),
            translation(
                old(active_table).mapper.words(),
                old(active_table).mapper.root(),
                old(self).page_index(),
            ) == Ok::<Option<Frame>, PagingError>(None) && frame.number >= FRAME_LIMIT
                ==> result matches Err(PagingError::InvalidFrame),
            translation(
                old(active_table).mapper.words(),
                old(active_table).mapper.root(),
                old(self).page_index(),
            ) == Ok::<Option<Frame>, PagingError>(None) && frame.number < FRAME_LIMIT
                && leaf_entry(
                old(active_table).mapper.words(),
                old(active_table).mapper.root(),
                old(self).page_index(),
            ) == Some(0u64) ==> result.is_ok() && *final(self) == *old(self),
            translation(
                old(active_table).mapper.words(),
                old(active_table).mapper.root(),
                old(self).page_index(),
            ) == Ok::<Option<Frame>, PagingError>(None) && frame.number < FRAME_LIMIT
                && leaf_entry(
                old(active_table).mapper.words(),
                old(active_table).mapper.root(),
                old(self).page_index(),
            ).is_some() && leaf_entry(
                old(active_table).mapper.words(),
                old(active_table).mapper.root(),
                old(self).page_index(),
            ) != Some(0u64) ==> result matches Err(PagingError::PageAlreadyMapped),
            translation(
                old(active_table).mapper.words(),
                old(active_table).mapper.root(),
                old(self).page_index(),
            ) == Ok::<Option<Frame>, PagingError>(None) && frame.number < FRAME_LIMIT
                && leaf_entry(
                old(active_table).mapper.words(),
                old(active_table).mapper.root(),
                old(self).page_index(),
            ).is_none() && !huge_on_way(
                old(active_table).mapper.words(),
                old(active_table).mapper.root(),
                old(self).page_index(),
            ) && pool_ready(old(self).pool(), old(active_table).mapper, old(self).page_index())
                ==> result.is_ok(),
            translation(
                old(active_table).mapper.words(),
                old(active_table).mapper.root(),
                old(self).page_index(),
            ) == Ok::<Option<Frame>, PagingError>(None) && frame.number < FRAME_LIMIT
                && huge_on_way(
                old(active_table).mapper.words(),
                old(active_table).mapper.root(),
                old(self).page_index(),
            ) ==> result matches Err(PagingError::HugePage),
            frame.number < FRAME_LIMIT ==> (window_error(
                old(active_table).mapper,
                old(self).page_index(),
            ) matches Some(e) ==> result matches Err(r) && r == e && final(active_table).mapper.words()
                == old(active_table).mapper.words() && *final(self) == *old(self)),
            result.is_err() ==> final(active_table).mapper.pinned() == old(active_table).mapper.pinned(),
            result matches Err(e) ==> table_error(e),
            result matches Ok(address) ==> {
                &&& address == old(self).page_index() * PAGE_SIZE
                &&& translation(
                    final(active_table).mapper.words(),
                    final(active_table).mapper.root(),
                    old(self).page_index(),
                ) == Ok::<Option<Frame>, PagingError>(Some(frame))
                &&& leaf_table(
                    final(active_table).mapper.words(),
                    final(active_table).mapper.root(),
                    old(self).page_index(),
                ) matches Some(p1) && final(active_table).mapper.words()[(
                    p1,
                    p1_index_of(old(self).page_index()),
                )] == table_entry(frame.number)
                &&& top_table(
                    old(active_table).mapper.words(),
                    old(active_table).mapper.root(),
                ) matches Some(p4) && maps_page(
                    old(active_table).mapper.words(),
                    final(active_table).mapper.words(),
                    old(active_table).mapper.pinned().insert(old(active_table).mapper.root()),
                    p4,
                    old(self).page_index(),
                    table_entry(frame.number),
                    path_tables(
                        final(active_table).mapper.words(),
                        p4,
                        old(self).page_index(),
                    ),
                    |g: u64| old(self).pool().contains(g) && !final(self).pool().contains(g),
                ) && final(active_table).mapper.pinned() == pinned_with(
                    old(active_table).mapper.pinned(),
                    path_tables(
                        final(active_table).mapper.words(),
                        p4,
                        old(self).page_index(),
                    ),
                )
            },
            only_absent_or_taken(
                old(active_table).mapper.words(),
                final(active_table).mapper.words(),
                |g: u64| old(self).pool().contains(g) && !final(self).pool().contains(g),
            ),
            final(self).pool().subset_of(old(self).pool()),
    {
        let ghost before = self.allocator;
        match active_table.mapper.translate_page(self.page) {
            Err(e) => {
                proof {
                    active_table.mapper.lemma_words_total();
                }
                return Err(e);
            },
            Ok(Some(_)) => {
                proof {
                    active_table.mapper.lemma_words_total();
                }
                return Err(PagingError::PageAlreadyMapped);
            },
            Ok(None) => {},
        }
        let flags = EntryFlags::from_bits_truncate(WRITABLE);
        let ghost number = frame.number;
        proof {
            use_type_invariant(&self.allocator);
            lemma_pool_size(self.allocator.first, self.allocator.second, self.allocator.third);
        }
        let result = active_table.mapper.map_to(self.page, frame, flags, &mut self.allocator);
        proof {
            let ready = leaf_entry(
                old(active_table).mapper.words(),
                old(active_table).mapper.root(),
                old(self).page_index(),
            ).is_none() && !huge_on_way(
                old(active_table).mapper.words(),
                old(active_table).mapper.root(),
                old(self).page_index(),
            ) && pool_ready(old(self).pool(), old(active_table).mapper, old(self).page_index())
                && number < FRAME_LIMIT;
            if ready && result.is_err() {
                let e = result->Err_0;
                let f1 = before.first.unwrap().number;
                let f2 = before.second.unwrap().number;
                let f3 = before.third.unwrap().number;
                assert(before.frames().contains(f1) && before.frames().contains(f2)
                    && before.frames().contains(f3));
                let (a, got, lineage) = choose|
                    a: &mut TinyAllocator,
                    got: Option<Frame>,
                    lineage: Set<u64>,
                |
                    call_ensures(TinyAllocator::allocate_frame, (a,), got) && *final(a)
                        == self.allocator && #[trigger] starved(
                        before,
                        *a,
                        got,
                        lineage,
                        old(active_table).mapper.pinned().insert(old(active_table).mapper.root()),
                        old(active_table).mapper.words(),
                        old(active_table).mapper.root(),
                        old(self).page_index(),
                        e,
                    );
                if got.is_none() {
                    assert(a.frames() =~= Set::<u64>::empty());
                    assert(!a.available(f1) && !a.available(f2) && !a.available(f3));
                } else {
                    assert(a.available(got.unwrap().number));
                    assert(before.frames().contains(got.unwrap().number));
                }
                assert(false);
            }
            lemma_table_flags();
            assert forall|g: u64| taken_between(before, self.allocator)(g) implies old(self).pool().contains(g) && !self.pool().contains(g) by {}
            assert forall|g: u64| self.pool().contains(g) implies old(self).pool().contains(g) by {
                assert(self.allocator.available(g));
            }
        }
        match result {
            Ok(()) => {
                match active_table.mapper.path(self.page) {
                    Some((p3, p2, p1)) => {
                        active_table.mapper.pin(&p3);
                        active_table.mapper.pin(&p2);
                        active_table.mapper.pin(&p1);
                    },
                    None => {},
                }
                Ok(self.page.start_address())
            },
            Err(e) => Err(e),
        }
    }

    /// Maps the page onto `frame` and gives the frame as a table of level 1.
    #[verifier::rlimit(30)]
    pub fn map_table_frame(&mut self, frame: Frame, active_table: &mut ActivePageTable) -> (result:
        Result<Table<Level1>, PagingError>)
        ensures
            final(self).page_index() == old(self).page_index(),
            final(active_table).mapper.root() == old(active_table).mapper.root(),
            final(active_table).mapper.pending() == old(active_table).mapper.pending(),
            final(active_table).mapper.words()[(old(active_table).mapper.root(), 511)] == old(active_table).mapper.words()[(old(active_table).mapper.root(), 511)],
            translation(
                old(active_table).mapper.words(),
                old(active_table).mapper.root(),
                old(self).page_index(),
            ) matches Err(e) ==> result matches Err(r) && r == e,
            translation(
                old(active_table).mapper.words(),
                old(active_table).mapper.root(),
                old(self).page_index(),
            ) matches Ok(Some(_)) ==> result matches Err(PagingError::PageAlreadyMapped),
            translation(
                old(active_table).mapper.words(),
                old(active_table).mapper.root(),
                old(self).page_index(),
            ) == Ok::<Option<Frame>, PagingError>(None) && frame.number >= FRAME_LIMIT
                ==> result matches Err(PagingError::InvalidFrame),
            translation(
                old(active_table).mapper.words(),
                old(active_table).mapper.root(),
                old(self).page_index(),
            ) == Ok::<Option<Frame>, PagingError>(None) && frame.number < FRAME_LIMIT
                && leaf_entry(
                old(active_table).mapper.words(),
                old(active_table).mapper.root(),
                old(self).page_index(),
            ) == Some(0u64) ==> result.is_ok() && *final(self) == *old(self),
            translation(
                old(active_table).mapper.words(),
                old(active_table).mapper.root(),
                old(self).page_index(),
            ) == Ok::<Option<Frame>, PagingError>(None) && frame.number < FRAME_LIMIT
                && leaf_entry(
                old(active_table).mapper.words(),
                old(active_table).mapper.root(),
                old(self).page_index(),
            ).is_some() && leaf_entry(
                old(active_table).mapper.words(),
                old(active_table).mapper.root(),
                old(self).page_index(),
            ) != Some(0u64) ==> result matches Err(PagingError::PageAlreadyMapped),
            translation(
                old(active_table).mapper.words(),
                old(active_table).mapper.root(),
                old(self).page_index(),
            ) == Ok::<Option<Frame>, PagingError>(None) && frame.number < FRAME_LIMIT
                && leaf_entry(
                old(active_table).mapper.words(),
                old(active_table).mapper.root(),
                old(self).page_index(),
            ).is_none() && !huge_on_way(
                old(active_table).mapper.words(),
                old(active_table).mapper.root(),
                old(self).page_index(),
            ) && pool_ready(old(self).pool(), old(active_table).mapper, old(self).page_index())
                ==> result.is_ok(),
            translation(
                old(active_table).mapper.words(),
                old(active_table).mapper.root(),
                old(self).page_index(),
            ) == Ok::<Option<Frame>, PagingError>(None) && frame.number < FRAME_LIMIT
                && huge_on_way(
                old(active_table).mapper.words(),
                old(active_table).mapper.root(),
                old(self).page_index(),
            ) ==> result matches Err(PagingError::HugePage),
            frame.number < FRAME_LIMIT ==> (window_error(
                old(active_table).mapper,
                old(self).page_index(),
            ) matches Some(e) ==> result matches Err(r) && r == e && final(active_table).mapper.words()
                == old(active_table).mapper.words() && *final(self) == *old(self)),
            result.is_err() ==> final(active_table).mapper.pinned() == old(active_table).mapper.pinned(),
            result matches Err(e) ==> table_error(e),
            result matches Ok(table) ==> {
                &&& table.frame_number() == frame.number
                &&& table.address() == old(self).page_index() * PAGE_SIZE
                &&& translation(
                    final(active_table).mapper.words(),
                    final(active_table).mapper.root(),
                    old(self).page_index(),
                ) == Ok::<Option<Frame>, PagingError>(Some(frame))
                &&& leaf_table(
                    final(active_table).mapper.words(),
                    final(active_table).mapper.root(),
                    old(self).page_index(),
                ) matches Some(p1) && final(active_table).mapper.words()[(
                    p1,
                    p1_index_of(old(self).page_index()),
                )] == table_entry(frame.number)
                &&& top_table(
                    old(active_table).mapper.words(),
                    old(active_table).mapper.root(),
                ) matches Some(p4) && maps_page(
                    old(active_table).mapper.words(),
                    final(active_table).mapper.words(),
                    old(active_table).mapper.pinned().insert(old(active_table).mapper.root()),
                    p4,
                    old(self).page_index(),
                    table_entry(frame.number),
                    path_tables(
                        final(active_table).mapper.words(),
                        p4,
                        old(self).page_index(),
                    ),
                    |g: u64| old(self).pool().contains(g) && !final(self).pool().contains(g),
                ) && final(active_table).mapper.pinned() == pinned_with(
                    old(active_table).mapper.pinned(),
                    path_tables(
                        final(active_table).mapper.words(),
                        p4,
                        old(self).page_index(),
                    ),
                )
            },
            only_absent_or_taken(
                old(active_table).mapper.words(),
                final(active_table).mapper.words(),
                |g: u64| old(self).pool().contains(g) && !final(self).pool().contains(g),
            ),
            final(self).pool().subset_of(old(self).pool()),
    {
        let window = frame.clone();
        match self.map(frame, active_table) {
            Ok(address) => Ok(Table::window(&window, address)),
            Err(e) => Err(e),
        }
    }

    /// Takes the mapping of the page away, and the pins with it.  The frame
    /// behind the page stays with whoever handed it in.
    #[verifier::rlimit(30)]
    pub fn unmap(&mut self, active_table: &mut ActivePageTable) -> (result: Result<(), PagingError>)
        ensures
            *final(self) == *old(self),
            result matches Err(e) ==> table_error(e),
            result.is_ok() <==> unmap_outcome(
                old(active_table).mapper.words(),
                old(active_table).mapper.root(),
                old(self).page_index(),
            ).is_ok(),
            result matches Err(e) ==> unmap_outcome(
                old(active_table).mapper.words(),
                old(active_table).mapper.root(),
                old(self).page_index(),
            ) == Err::<Frame, PagingError>(e),
            final(active_table).mapper.root() == old(active_table).mapper.root(),
            final(active_table).mapper.words()[(old(active_table).mapper.root(), 511)] == old(active_table).mapper.words()[(old(active_table).mapper.root(), 511)],
            result.is_err() ==> {
                &&& final(active_table).mapper.words() == old(active_table).mapper.words()
                &&& final(active_table).mapper.pending() == old(active_table).mapper.pending()
                &&& final(active_table).mapper.pinned() == old(active_table).mapper.pinned()
            },
            result.is_ok() ==> {
                &&& final(active_table).mapper.pinned() == Set::<u64>::empty()
                &&& leaf_table(
                    old(active_table).mapper.words(),
                    old(active_table).mapper.root(),
                    old(self).page_index(),
                ) matches Some(p1) && final(active_table).mapper.words() == old(active_table).mapper.words().insert((p1, p1_index_of(old(self).page_index())), 0)
                &&& final(active_table).mapper.pending() == old(active_table).mapper.pending().push(
                    TlbFlush::Page((old(self).page_index() * PAGE_SIZE) as u64),
                )
                &&& translation(
                    final(active_table).mapper.words(),
                    final(active_table).mapper.root(),
                    old(self).page_index(),
                ) == Ok::<Option<Frame>, PagingError>(None)
            },
    {
        match active_table.mapper.unmap_page(self.page) {
            Ok(_) => {
                active_table.mapper.unpin_all();
                Ok(())
            },
            Err(e) => Err(e),
        }
    }
}

} // verus!
