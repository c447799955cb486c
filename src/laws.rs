use vstd::prelude::*;

use crate::catalog::{
    book_of, has_book, id_available, ids_increasing, new_book, next_book_id, Book,
};
use crate::ledger::{
    borrow_outcome, holds_copy, loan_wf, loans_of, open_count, AppLibrary, LendingError, Loan,
    LOAN_PERIOD,
};

verus! {

/// No two books of a well-formed ledger share an id.
pub proof fn lemma_book_ids_distinct(lib: &AppLibrary)
    requires
        lib.wf(),
    ensures
        forall|i: int, j: int|
            0 <= i < lib.books().len() && 0 <= j < lib.books().len() && i != j ==> lib.books()[i].id
                != lib.books()[j].id,
{
    assert forall|i: int, j: int|
        0 <= i < lib.books().len() && 0 <= j < lib.books().len() && i != j implies lib.books()[i].id
        != lib.books()[j].id by {
        if i < j {
            assert(lib.books()[i].id < lib.books()[j].id);
        } else {
            assert(lib.books()[j].id < lib.books()[i].id);
        }
    }
}

/// Adding a book appends exactly one entry whose id no earlier entry
/// carries, and keeps ids increasing; so over any sequence of additions the
/// ids stay distinct and the count equals the number of additions.
pub proof fn lemma_added_book_fresh(
    books: Seq<Book>,
    title: String,
    category: Seq<char>,
    drawer: u8,
    column: u8,
    now: u64,
)
    requires
        ids_increasing(books),
        id_available(books, now),
    ensures
        ({
            let r = next_book_id(books, now);
            let after = books.push(new_book(r, title, category, drawer, column));
            &&& ids_increasing(after)
            &&& after.len() == books.len() + 1
            &&& forall|i: int| 0 <= i < books.len() ==> books[i].id != r
        }),
{
    let r = next_book_id(books, now);
    assert forall|i: int| 0 <= i < books.len() implies books[i].id < r by {
        if i < books.len() - 1 {
            assert(books[i].id < books[books.len() - 1].id);
        }
    }
}

/// A well-formed ledger never has more open loans of a book than the book
/// has copies.
pub proof fn lemma_open_loans_within_copies(lib: &AppLibrary, book_id: u64)
    requires
        lib.wf(),
        has_book(lib.books(), book_id),
    ensures
        open_count(lib.loans(), book_id) <= book_of(lib.books(), book_id).copies,
{
    let j = choose|j: int| 0 <= j < lib.books().len() && lib.books()[j].id == book_id;
    assert(open_count(lib.loans(), lib.books()[j].id) <= lib.books()[j].copies);
}

/// Each open loan of a book that is appended takes one more copy: after `n`
/// of them the open count has grown by exactly `n`.
pub proof fn lemma_borrows_take_copies(loans: Seq<Loan>, added: Seq<Loan>, book_id: u64)
    requires
        forall|i: int| 0 <= i < added.len() ==> holds_copy(#[trigger] added[i], book_id),
    ensures
        open_count(loans + added, book_id) == open_count(loans, book_id) + added.len(),
    decreases added.len(),
{
    if added.len() == 0 {
        assert(loans + added =~= loans);
    } else {
        let p = added.drop_last();
        assert((loans + added).drop_last() =~= loans + p);
        assert forall|i: int| 0 <= i < p.len() implies holds_copy(#[trigger] p[i], book_id) by {
            assert(holds_copy(added[i], book_id));
        }
        assert(holds_copy(added[added.len() - 1], book_id));
        lemma_borrows_take_copies(loans, p, book_id);
    }
}

/// A borrow of a catalogued book succeeds exactly when fewer loans of it are
/// open than it has copies, and is refused with `NoCopiesAvailable`
/// otherwise.
pub proof fn lemma_borrow_succeeds_iff_copy_free(
    books: Seq<Book>,
    loans: Seq<Loan>,
    member_id: u64,
    book_id: u64,
    now: u64,
)
    requires
        has_book(books, book_id),
    ensures
        borrow_outcome(books, loans, member_id, book_id, now) is Ok <==> open_count(loans, book_id)
            < book_of(books, book_id).copies,
        open_count(loans, book_id) >= book_of(books, book_id).copies ==> borrow_outcome(
            books,
            loans,
            member_id,
            book_id,
            now,
        ) == Err::<Loan, LendingError>(LendingError::NoCopiesAvailable),
{
}

/// A granted loan is due exactly one loan period after it was made.
pub proof fn lemma_loan_period(
    books: Seq<Book>,
    loans: Seq<Loan>,
    member_id: u64,
    book_id: u64,
    now: u64,
)
    requires
        now <= u64::MAX - LOAN_PERIOD,
    ensures
        borrow_outcome(books, loans, member_id, book_id, now) matches Ok(l) ==> l.due_at
            - l.borrowed_at == LOAN_PERIOD && l.borrowed_at == now,
{
}

/// Every loan recorded in a well-formed ledger is due exactly one loan
/// period after it was made.
pub proof fn lemma_recorded_loan_period(lib: &AppLibrary, i: int)
    requires
        lib.wf(),
        0 <= i < lib.loans().len(),
    ensures
        lib.loans()[i].due_at - lib.loans()[i].borrowed_at == LOAN_PERIOD,
{
    assert(loan_wf(lib.books(), lib.loans()[i]));
}

/// Loans a member makes are added to that member's history, in the order
/// made: after `k` of them the history has grown by exactly those `k`.
pub proof fn lemma_member_loans_append(loans: Seq<Loan>, added: Seq<Loan>, member_id: u64)
    requires
        forall|i: int| 0 <= i < added.len() ==> (#[trigger] added[i]).member_id == member_id,
    ensures
        loans_of(loans + added, member_id) == loans_of(loans, member_id) + added,
    decreases added.len(),
{
    if added.len() == 0 {
        assert(loans + added =~= loans);
        assert(loans_of(loans, member_id) + added =~= loans_of(loans, member_id));
    } else {
        let p = added.drop_last();
        assert((loans + added).drop_last() =~= loans + p);
        assert forall|i: int| 0 <= i < p.len() implies (#[trigger] p[i]).member_id == member_id by {
            assert(added[i].member_id == member_id);
        }
        assert(added[added.len() - 1].member_id == member_id);
        lemma_member_loans_append(loans, p, member_id);
        assert(loans_of(loans, member_id) + added =~= (loans_of(loans, member_id) + p).push(
            added.last(),
        ));
    }
}

} // verus!
