//! The recent-books list: deduplicated, most recently opened first, capped.
//!
//! The list is plain data for the caller to persist. Reading progress is a
//! fraction the caller computes; it travels through here as raw bits and is
//! never interpreted. Timestamps are epoch seconds supplied by the caller.

use vstd::prelude::*;

use crate::chars::str_eq;

verus! {

broadcast use vstd::seq_lib::group_to_multiset_ensures;

/// How many books the list keeps.
pub const RECENT_BOOKS_CAP: usize = 50;

/// One remembered book.
#[derive(Debug)]
pub struct RecentBook {
    pub id: String,
    pub file_path: String,
    pub file_name: String,
    pub file_type: String,
    pub title: String,
    pub author: Option<String>,
    pub cover_image: Option<String>,
    pub total_pages: u32,
    pub last_page: u32,
    /// The caller's reading-progress fraction, carried as raw bits.
    pub progress_bits: u32,
    /// When the book was last opened, as epoch seconds.
    pub last_opened_at: i64,
}

/// The mathematical value of a `RecentBook`.
pub ghost struct BookModel {
    pub id: Seq<char>,
    pub file_path: Seq<char>,
    pub file_name: Seq<char>,
    pub file_type: Seq<char>,
    pub title: Seq<char>,
    pub author: Option<Seq<char>>,
    pub cover_image: Option<Seq<char>>,
    pub total_pages: u32,
    pub last_page: u32,
    pub progress_bits: u32,
    pub last_opened_at: i64,
}

impl View for RecentBook {
    type V = BookModel;

    open spec fn view(&self) -> BookModel {
        BookModel {
            id: self.id@,
            file_path: self.file_path@,
            file_name: self.file_name@,
            file_type: self.file_type@,
            title: self.title@,
            author: match self.author {
                Some(a) => Some(a@),
                None => None,
            },
            cover_image: match self.cover_image {
                Some(c) => Some(c@),
                None => None,
            },
            total_pages: self.total_pages,
            last_page: self.last_page,
            progress_bits: self.progress_bits,
            last_opened_at: self.last_opened_at,
        }
    }
}

/// The views of the elements of a book vector.
pub open spec fn book_views(v: Seq<RecentBook>) -> Seq<BookModel> {
    v.map_values(|b: RecentBook| b@)
}

/// Most recently opened first.
pub open spec fn spec_sorted_desc(bs: Seq<BookModel>) -> bool {
    forall|i: int, j: int|
        0 <= i < j < bs.len() ==> (#[trigger] bs[i]).last_opened_at >= (
        #[trigger] bs[j]).last_opened_at
}

fn max_opened_index(books: &Vec<RecentBook>) -> (m: usize)
    requires
        books@.len() > 0,
    ensures
        m < books@.len(),
        forall|j: int|
            0 <= j < books@.len() ==> books@[m as int].last_opened_at >= (
            #[trigger] books@[j]).last_opened_at,
{
    let mut m: usize = 0;
    let n = books.len();
    let mut i: usize = 1;
    while i < n
        invariant
            n == books@.len(),
            m < i <= n,
            forall|j: int|
                0 <= j < i ==> books@[m as int].last_opened_at >= (
                #[trigger] books@[j]).last_opened_at,
        decreases n - i,
    {
        if books[i].last_opened_at > books[m].last_opened_at {
            m = i;
        }
        i = i + 1;
    }
    m
}

/// Sorts the list most recently opened first. The result is a permutation:
/// nothing is added, dropped or altered.
pub fn sort_books_desc(books: &mut Vec<RecentBook>)
    ensures
        final(books)@.len() == old(books)@.len(),
        spec_sorted_desc(book_views(final(books)@)),
        book_views(final(books)@).to_multiset() == book_views(old(books)@).to_multiset(),
{
    let mut out: Vec<RecentBook> = Vec::new();
    proof {
        assert(book_views(out@) =~= Seq::<BookModel>::empty());
        assert(book_views(out@).to_multiset().add(book_views(books@).to_multiset())
            =~= book_views(old(books)@).to_multiset());
    }
    while books.len() > 0
        invariant
            book_views(out@).to_multiset().add(book_views(books@).to_multiset())
                == book_views(old(books)@).to_multiset(),
            spec_sorted_desc(book_views(out@)),
            forall|i: int, j: int|
                0 <= i < out@.len() && 0 <= j < books@.len() ==> (
                #[trigger] book_views(out@)[i]).last_opened_at >= (
                #[trigger] book_views(books@)[j]).last_opened_at,
            out@.len() + books@.len() == old(books)@.len(),
        decreases books@.len(),
    {
        let m = max_opened_index(books);
        let ghost before = books@;
        let ghost out_before = out@;
        let b = books.remove(m);
        let ghost bv = b@;
        out.push(b);
        proof {
            assert(book_views(before).remove(m as int) =~= book_views(books@));
            assert(book_views(before).to_multiset().remove(bv) =~= book_views(
                books@,
            ).to_multiset());
            assert(book_views(out@) =~= book_views(out_before).push(bv));
            assert(book_views(out@).to_multiset() =~= book_views(
                out_before,
            ).to_multiset().insert(bv));
            assert(book_views(before).to_multiset().count(bv) > 0) by {
                assert(book_views(before)[m as int] == bv);
                assert(book_views(before).contains(bv));
            }
            assert(book_views(out@).to_multiset().add(book_views(books@).to_multiset())
                =~= book_views(old(books)@).to_multiset());
            assert forall|i: int, j: int|
                0 <= i < out@.len() && 0 <= j < books@.len() implies (
            #[trigger] book_views(out@)[i]).last_opened_at >= (
            #[trigger] book_views(books@)[j]).last_opened_at by {
                assert(book_views(books@)[j] == book_views(before).remove(m as int)[j]);
                if j < m {
                    assert(book_views(books@)[j] == book_views(before)[j]);
                } else {
                    assert(book_views(books@)[j] == book_views(before)[j + 1]);
                }
                if i < out_before.len() {
                    assert(book_views(out@)[i] == book_views(out_before)[i]);
                } else {
                    assert(book_views(out@)[i] == bv);
                }
            }
        }
    }
    proof {
        assert(book_views(books@) =~= Seq::<BookModel>::empty());
        assert(book_views(old(books)@).to_multiset() =~= book_views(out@).to_multiset().add(
            book_views(books@).to_multiset(),
        ));
        assert(book_views(old(books)@).to_multiset() =~= book_views(out@).to_multiset());
    }
    *books = out;
}

/// Sorts the list most recently opened first and keeps at most the cap.
/// The result is the prefix of a most-recent-first permutation of the
/// input, so everything dropped was opened no later than anything kept.
pub fn select_recent_books(books: Vec<RecentBook>) -> (r: Vec<RecentBook>)
    ensures
        spec_sorted_desc(book_views(r@)),
        r@.len() == vstd::math::min(books@.len() as int, RECENT_BOOKS_CAP as int),
        exists|sorted: Seq<BookModel>|
            {
                &&& (#[trigger] sorted.to_multiset()) == book_views(books@).to_multiset()
                &&& spec_sorted_desc(sorted)
                &&& book_views(r@) == sorted.subrange(0, r@.len() as int)
            },
{
    let mut books = books;
    sort_books_desc(&mut books);
    let ghost sorted = book_views(books@);
    books.truncate(RECENT_BOOKS_CAP);
    proof {
        assert(book_views(books@) =~= sorted.subrange(0, books@.len() as int));
    }
    books
}

/// Drops every book with the given id or path, so a re-added book replaces
/// its older entry instead of duplicating it.
pub fn drop_book_entry(books: &mut Vec<RecentBook>, id: &str, file_path: &str)
    ensures
        book_views(final(books)@) == book_views(old(books)@).filter(
            |b: BookModel| b.id != id@ && b.file_path != file_path@,
        ),
{
    let mut kept: Vec<RecentBook> = Vec::new();
    let n = books.len();
    let mut i: usize = 0;
    let ghost pred = |b: BookModel| b.id != id@ && b.file_path != file_path@;
    proof {
        reveal(Seq::filter);
        assert(book_views(books@.subrange(0, 0)) =~= Seq::<BookModel>::empty());
        assert(book_views(kept@) =~= book_views(books@.subrange(0, 0)).filter(pred));
    }
    while i < n
        invariant
            n == books@.len(),
            i <= n,
            books@ == old(books)@,
            pred == (|b: BookModel| b.id != id@ && b.file_path != file_path@),
            book_views(kept@) == book_views(books@.subrange(0, i as int)).filter(pred),
        decreases n - i,
    {
        let ghost prev = kept@;
        let keep = !str_eq(books[i].id.as_str(), id) && !str_eq(
            books[i].file_path.as_str(),
            file_path,
        );
        if keep {
            let b = clone_book(&books[i]);
            kept.push(b);
        }
        i = i + 1;
        proof {
            reveal(Seq::filter);
            let bvs = book_views(books@.subrange(0, i as int));
            assert(bvs.drop_last() =~= book_views(books@.subrange(0, i - 1)));
            assert(bvs.last() == books@[i - 1]@);
            if kept@.len() > prev.len() {
                assert(book_views(kept@) =~= book_views(prev).push(books@[i - 1]@));
            } else {
                assert(book_views(kept@) =~= book_views(prev));
            }
        }
    }
    proof {
        assert(books@.subrange(0, n as int) =~= books@);
    }
    *books = kept;
}

fn clone_book(b: &RecentBook) -> (r: RecentBook)
    ensures
        r@ == b@,
{
    RecentBook {
        id: b.id.clone(),
        file_path: b.file_path.clone(),
        file_name: b.file_name.clone(),
        file_type: b.file_type.clone(),
        title: b.title.clone(),
        author: match &b.author {
            Some(a) => Some(a.clone()),
            None => None,
        },
        cover_image: match &b.cover_image {
            Some(c) => Some(c.clone()),
            None => None,
        },
        total_pages: b.total_pages,
        last_page: b.last_page,
        progress_bits: b.progress_bits,
        last_opened_at: b.last_opened_at,
    }
}

/// Records a freshly opened book: any older entry with the same id or path
/// is dropped, the new entry starts at page one with zero progress bits,
/// and the list is re-sorted and capped.
pub fn add_recent_book(books: &mut Vec<RecentBook>, book: RecentBook) -> (r: Vec<RecentBook>)
    ensures
        spec_sorted_desc(book_views(r@)),
        r@.len() <= RECENT_BOOKS_CAP,
        ({
            let kept = book_views(old(books)@).filter(
                |b: BookModel| b.id != book.id@ && b.file_path != book.file_path@,
            );
            exists|sorted: Seq<BookModel>|
                {
                    &&& (#[trigger] sorted.to_multiset()) == kept.push(
                        BookModel { last_page: 1, progress_bits: 0, ..book@ },
                    ).to_multiset()
                    &&& spec_sorted_desc(sorted)
                    &&& book_views(r@) == sorted.subrange(0, r@.len() as int)
                }
        }),
{
    drop_book_entry(books, book.id.as_str(), book.file_path.as_str());
    let entry = RecentBook { last_page: 1, progress_bits: 0, ..book };
    let ghost ev = entry@;
    let mut list: Vec<RecentBook> = Vec::new();
    core::mem::swap(&mut list, books);
    list.push(entry);
    proof {
        assert(book_views(list@) =~= book_views(old(books)@).filter(
            |b: BookModel| b.id != book.id@ && b.file_path != book.file_path@,
        ).push(ev));
        assert(ev == (BookModel { last_page: 1, progress_bits: 0, ..book@ }));
    }
    select_recent_books(list)
}

/// Updates one book's position: the first entry with the given id gets the
/// new page, progress bits and timestamp; everything else stays as it was.
/// An unknown id changes nothing.
pub fn update_book_progress(
    books: &mut Vec<RecentBook>,
    id: &str,
    last_page: u32,
    progress_bits: u32,
    now: i64,
) -> (updated: bool)
    ensures
        final(books)@.len() == old(books)@.len(),
        updated ==> exists|i: int|
            {
                &&& 0 <= i < old(books)@.len()
                &&& (#[trigger] old(books)@[i])@.id == id@
                &&& book_views(final(books)@) == book_views(old(books)@).update(
                    i,
                    BookModel { last_page, progress_bits, last_opened_at: now, ..old(
                        books,
                    )@[i]@ },
                )
            },
        !updated ==> final(books)@ == old(books)@ && (forall|i: int|
            0 <= i < old(books)@.len() ==> (#[trigger] old(books)@[i])@.id != id@),
{
    let n = books.len();
    let mut i: usize = 0;
    while i < n
        invariant
            n == books@.len(),
            i <= n,
            books@ == old(books)@,
            forall|j: int| 0 <= j < i ==> (#[trigger] books@[j])@.id != id@,
        decreases n - i,
    {
        if str_eq(books[i].id.as_str(), id) {
            let updated_book = RecentBook {
                last_page,
                progress_bits,
                last_opened_at: now,
                ..clone_book(&books[i])
            };
            let ghost uv = updated_book@;
            books[i] = updated_book;
            proof {
                assert(uv == (BookModel {
                    last_page,
                    progress_bits,
                    last_opened_at: now,
                    ..old(books)@[i as int]@
                }));
                assert(book_views(books@) =~= book_views(old(books)@).update(i as int, uv));
            }
            return true;
        }
        i = i + 1;
    }
    false
}

/// Drops the book with the given id, if it is present.
pub fn remove_recent_book(books: &mut Vec<RecentBook>, id: &str)
    ensures
        book_views(final(books)@) == book_views(old(books)@).filter(
            (|b: BookModel| b.id != id@),
        ),
{
    let mut kept: Vec<RecentBook> = Vec::new();
    let n = books.len();
    let mut i: usize = 0;
    let ghost pred = (|b: BookModel| b.id != id@);
    proof {
        reveal(Seq::filter);
        assert(book_views(books@.subrange(0, 0)) =~= Seq::<BookModel>::empty());
        assert(book_views(kept@) =~= book_views(books@.subrange(0, 0)).filter(pred));
    }
    while i < n
        invariant
            n == books@.len(),
            i <= n,
            books@ == old(books)@,
            pred == (|b: BookModel| b.id != id@),
            book_views(kept@) == book_views(books@.subrange(0, i as int)).filter(pred),
        decreases n - i,
    {
        let ghost prev = kept@;
        if !str_eq(books[i].id.as_str(), id) {
            let b = clone_book(&books[i]);
            kept.push(b);
        }
        i = i + 1;
        proof {
            reveal(Seq::filter);
            let bvs = book_views(books@.subrange(0, i as int));
            assert(bvs.drop_last() =~= book_views(books@.subrange(0, i - 1)));
            assert(bvs.last() == books@[i - 1]@);
            if kept@.len() > prev.len() {
                assert(book_views(kept@) =~= book_views(prev).push(books@[i - 1]@));
            } else {
                assert(book_views(kept@) =~= book_views(prev));
            }
        }
    }
    proof {
        assert(books@.subrange(0, n as int) =~= books@);
    }
    *books = kept;
}

} // verus!
