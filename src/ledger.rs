use vstd::prelude::*;

use crate::catalog::{
    book_of, find_title, has_book, id_available, ids_increasing, lemma_book_of_index, new_book,
    next_book_id, Book, Catalog,
};
use crate::membership::{
    find_account, find_name, ids_are_positions, new_user, Membership, User,
};

verus! {

/// How long a loan runs: 24 hours, in nanoseconds (the unit of the host's
/// block timestamps).
pub const LOAN_PERIOD: u64 = 86_400_000_000_000;

/// One loan of one copy. `open` is false once the copy has been returned.
#[derive(Clone, Copy, Debug, PartialEq, Eq, Structural)]
pub struct Loan {
    pub book_id: u64,
    pub member_id: u64,
    pub borrowed_at: u64,
    pub due_at: u64,
    pub open: bool,
}

impl Loan {
    /// Overdue: still open and past its due time.
    pub fn is_overdue(&self, now: u64) -> (r: bool)
        ensures
            r == (self.open && now > self.due_at),
    {
        self.open && now > self.due_at
    }
}

/// Why a ledger operation was refused. A refused operation changes nothing.
#[derive(Clone, Copy, Debug, PartialEq, Eq, Structural)]
pub enum LendingError {
    BookNotFound,
    MemberNotFound,
    NoCopiesAvailable,
    NoOpenLoan,
    TooManyCopies,
}

/// The loan is an open loan of this book.
pub open spec fn holds_copy(l: Loan, book_id: u64) -> bool {
    l.book_id == book_id && l.open
}

/// Number of open loans of a book.
pub open spec fn open_count(loans: Seq<Loan>, book_id: u64) -> nat
    decreases loans.len(),
{
    if loans.len() == 0 {
        0
    } else {
        open_count(loans.drop_last(), book_id) + if holds_copy(loans.last(), book_id) {
            1nat
        } else {
            0nat
        }
    }
}

/// A member's loans, open and closed, in the order they were made.
pub open spec fn loans_of(loans: Seq<Loan>, member_id: u64) -> Seq<Loan>
    decreases loans.len(),
{
    if loans.len() == 0 {
        Seq::empty()
    } else if loans.last().member_id == member_id {
        loans_of(loans.drop_last(), member_id).push(loans.last())
    } else {
        loans_of(loans.drop_last(), member_id)
    }
}

/// The loan a borrow at time `now` creates.
pub open spec fn new_loan(member_id: u64, book_id: u64, now: u64) -> Loan {
    Loan { book_id, member_id, borrowed_at: now, due_at: (now + LOAN_PERIOD) as u64, open: true }
}

/// What borrowing a book yields: the book must exist and have a copy that no
/// open loan holds.
pub open spec fn borrow_outcome(
    books: Seq<Book>,
    loans: Seq<Loan>,
    member_id: u64,
    book_id: u64,
    now: u64,
) -> Result<Loan, LendingError> {
    if !has_book(books, book_id) {
        Err(LendingError::BookNotFound)
    } else if open_count(loans, book_id) >= book_of(books, book_id).copies {
        Err(LendingError::NoCopiesAvailable)
    } else {
        Ok(new_loan(member_id, book_id, now))
    }
}

/// The loans after an outcome: a granted loan is appended, a refusal adds
/// nothing.
pub open spec fn loans_after(loans: Seq<Loan>, r: Result<Loan, LendingError>) -> Seq<Loan> {
    match r {
        Ok(l) => loans.push(l),
        Err(_) => loans,
    }
}

/// What borrowing by title and display name yields: the first book with the
/// title, borrowed for the first user with the name.
pub open spec fn borrow_by_name_outcome(
    books: Seq<Book>,
    users: Seq<User>,
    loans: Seq<Loan>,
    title: Seq<char>,
    name: Seq<char>,
    now: u64,
) -> Result<Loan, LendingError> {
    match find_title(books, title) {
        None => Err(LendingError::BookNotFound),
        Some(b) => match find_name(users, name) {
            None => Err(LendingError::MemberNotFound),
            Some(u) => borrow_outcome(books, loans, u.id, b.id, now),
        },
    }
}

/// The loan runs exactly one loan period and refers to a catalogued book.
pub open spec fn loan_wf(books: Seq<Book>, l: Loan) -> bool {
    l.due_at == l.borrowed_at + LOAN_PERIOD && has_book(books, l.book_id)
}

/// The loan is an open loan of this book held by this member.
pub open spec fn returnable(l: Loan, member_id: u64, book_id: u64) -> bool {
    l.member_id == member_id && holds_copy(l, book_id)
}

/// Position `i` holds the earliest open loan of this book by this member.
pub open spec fn first_returnable(loans: Seq<Loan>, member_id: u64, book_id: u64, i: int) -> bool {
    &&& 0 <= i < loans.len()
    &&& returnable(loans[i], member_id, book_id)
    &&& forall|j: int| 0 <= j < i ==> !returnable(#[trigger] loans[j], member_id, book_id)
}

/// The same loan, closed.
pub open spec fn closed_loan(l: Loan) -> Loan {
    Loan { open: false, ..l }
}

/// What borrowing for the user registered to an account yields.
pub open spec fn account_borrow_outcome(
    books: Seq<Book>,
    users: Seq<User>,
    loans: Seq<Loan>,
    account: Seq<char>,
    book_id: u64,
    now: u64,
) -> Result<Loan, LendingError> {
    match find_account(users, account) {
        None => Err(LendingError::MemberNotFound),
        Some(u) => borrow_outcome(books, loans, u.id, book_id, now),
    }
}

/// Ledger invariant: every loan runs exactly one loan period, refers to a
/// catalogued book, and no book has more open loans than copies.
pub open spec fn loans_wf(books: Seq<Book>, loans: Seq<Loan>) -> bool {
    &&& forall|i: int| 0 <= i < loans.len() ==> loan_wf(books, #[trigger] loans[i])
    &&& forall|j: int|
        0 <= j < books.len() ==> open_count(loans, #[trigger] books[j].id) <= books[j].copies
}

/// A book that no loan refers to has no open loans.
proof fn lemma_open_count_absent(loans: Seq<Loan>, book_id: u64)
    requires
        forall|i: int| 0 <= i < loans.len() ==> #[trigger] loans[i].book_id != book_id,
    ensures
        open_count(loans, book_id) == 0,
    decreases loans.len(),
{
    if loans.len() > 0 {
        let p = loans.drop_last();
        assert forall|i: int| 0 <= i < p.len() implies #[trigger] p[i].book_id != book_id by {
            assert(loans[i].book_id != book_id);
        }
        lemma_open_count_absent(p, book_id);
        assert(loans[loans.len() - 1].book_id != book_id);
    }
}

/// Closing one loan never raises any book's open count.
proof fn lemma_open_count_close(loans: Seq<Loan>, i: int, book_id: u64)
    requires
        0 <= i < loans.len(),
    ensures
        open_count(loans.update(i, Loan { open: false, ..loans[i] }), book_id) <= open_count(
            loans,
            book_id,
        ),
    decreases loans.len(),
{
    let u = loans.update(i, Loan { open: false, ..loans[i] });
    if i < loans.len() - 1 {
        assert(u.drop_last() =~= loans.drop_last().update(i, Loan { open: false, ..loans[i] }));
        lemma_open_count_close(loans.drop_last(), i, book_id);
    } else {
        assert(u.drop_last() =~= loans.drop_last());
    }
}

/// The ledger: owns the catalog, the user registry, and every loan ever made,
/// in the order made.
pub struct AppLibrary {
    catalog: Catalog,
    membership: Membership,
    loans: Vec<Loan>,
}

impl AppLibrary {
    /// The catalogued books, in insertion order.
    pub closed spec fn books(&self) -> Seq<Book> {
        self.catalog@
    }

    /// The registered users, in registration order.
    pub closed spec fn users(&self) -> Seq<User> {
        self.membership@
    }

    /// Every loan made, in the order made.
    pub closed spec fn loans(&self) -> Seq<Loan> {
        self.loans@
    }

    /// Well-formed: unique book and user ids, and the loan invariant.
    pub open spec fn wf(&self) -> bool {
        &&& ids_increasing(self.books())
        &&& ids_are_positions(self.users())
        &&& loans_wf(self.books(), self.loans())
    }

    /// An empty ledger.
    pub fn new() -> (r: AppLibrary)
        ensures
            r.wf(),
            r.books() == Seq::<Book>::empty(),
            r.users() == Seq::<User>::empty(),
            r.loans() == Seq::<Loan>::empty(),
    {
        AppLibrary { catalog: Catalog::new(), membership: Membership::new(), loans: Vec::new() }
    }

    /// Number of open loans of a book.
    fn count_open(&self, book_id: u64) -> (r: usize)
        ensures
            r == open_count(self.loans(), book_id),
    {
        let mut c: usize = 0;
        let mut i: usize = 0;
        while i < self.loans.len()
            invariant
                i <= self.loans@.len(),
                c == open_count(self.loans@.take(i as int), book_id),
                c <= i,
            decreases self.loans@.len() - i,
        {
            assert(self.loans@.take(i + 1).drop_last() =~= self.loans@.take(i as int));
            if self.loans[i].book_id == book_id && self.loans[i].open {
                c = c + 1;
            }
            i = i + 1;
        }
        assert(self.loans@.take(i as int) =~= self.loans@);
        c
    }

    /// Lends a copy of a book to a member at time `now`. Refused with
    /// `BookNotFound` for an unknown id and with `NoCopiesAvailable` when
    /// every copy is out; a member may hold several copies of one book.
    pub fn borrow_book(&mut self, member_id: u64, book_id: u64, now: u64) -> (r: Result<
        Loan,
        LendingError,
    >)
        requires
            old(self).wf(),
            now <= u64::MAX - LOAN_PERIOD,
        ensures
            final(self).wf(),
            r == borrow_outcome(old(self).books(), old(self).loans(), member_id, book_id, now),
            final(self).books() == old(self).books(),
            final(self).users() == old(self).users(),
            final(self).loans() == loans_after(old(self).loans(), r),
            r matches Ok(l) ==> l.due_at == l.borrowed_at + LOAN_PERIOD,
    {
        match self.catalog.index_of_id(book_id) {
            None => Err(LendingError::BookNotFound),
            Some(i) => {
                let copies = self.catalog.book_at(i).copies;
                let open = self.count_open(book_id);
                if open >= copies as usize {
                    Err(LendingError::NoCopiesAvailable)
                } else {
                    let loan = Loan {
                        book_id,
                        member_id,
                        borrowed_at: now,
                        due_at: now + LOAN_PERIOD,
                        open: true,
                    };
                    self.loans.push(loan);
                    proof {
                        let books = self.books();
                        let s = old(self).loans();
                        assert(self.loans().drop_last() =~= s);
                        assert forall|j: int| 0 <= j < books.len() implies open_count(
                            self.loans(),
                            #[trigger] books[j].id,
                        ) <= books[j].copies by {
                            if books[j].id == book_id {
                                if j < i {
                                    assert(books[j].id < books[i as int].id);
                                } else if j > i {
                                    assert(books[i as int].id < books[j].id);
                                }
                            }
                        }
                        assert(books[i as int].id == book_id);
                        assert forall|k: int| 0 <= k < self.loans().len() implies loan_wf(
                            books,
                            #[trigger] self.loans()[k],
                        ) by {
                            if k < s.len() {
                                assert(self.loans()[k] == s[k]);
                            }
                        }
                    }
                    Ok(loan)
                }
            },
        }
    }

    /// Returns a copy: closes the earliest open loan of the book by the
    /// member. Refused with `BookNotFound` for an unknown book and with
    /// `NoOpenLoan` when the member holds no copy of it.
    pub fn return_book(&mut self, member_id: u64, book_id: u64) -> (r: Result<(), LendingError>)
        requires
            old(self).wf(),
        ensures
            final(self).wf(),
            final(self).books() == old(self).books(),
            final(self).users() == old(self).users(),
            !has_book(old(self).books(), book_id) ==> r == Err::<(), LendingError>(
                LendingError::BookNotFound,
            ) && final(self).loans() == old(self).loans(),
            has_book(old(self).books(), book_id) && (forall|i: int|
                0 <= i < old(self).loans().len() ==> !returnable(
                    #[trigger] old(self).loans()[i],
                    member_id,
                    book_id,
                )) ==> r == Err::<(), LendingError>(LendingError::NoOpenLoan) && final(self).loans()
                == old(self).loans(),
            has_book(old(self).books(), book_id) && (exists|i: int|
                0 <= i < old(self).loans().len() && returnable(
                    #[trigger] old(self).loans()[i],
                    member_id,
                    book_id,
                )) ==> r == Ok::<(), LendingError>(()) && exists|i: int|
                first_returnable(old(self).loans(), member_id, book_id, i) && final(self).loans()
                    == old(self).loans().update(i, closed_loan(old(self).loans()[i])),
    {
        if self.catalog.index_of_id(book_id).is_none() {
            return Err(LendingError::BookNotFound);
        }
        let mut i: usize = 0;
        while i < self.loans.len()
            invariant
                i <= self.loans@.len(),
                self.loans() == old(self).loans(),
                self.books() == old(self).books(),
                self.users() == old(self).users(),
                self.wf(),
                forall|j: int| 0 <= j < i ==> !returnable(#[trigger] self.loans@[j], member_id, book_id),
            decreases self.loans@.len() - i,
        {
            if self.loans[i].member_id == member_id && self.loans[i].book_id == book_id
                && self.loans[i].open {
                let ghost s = self.loans@;
                self.loans[i].open = false;
                proof {
                    assert(self.loans@ =~= s.update(i as int, closed_loan(s[i as int])));
                    let books = self.books();
                    assert forall|j: int| 0 <= j < books.len() implies open_count(
                        self.loans(),
                        #[trigger] books[j].id,
                    ) <= books[j].copies by {
                        lemma_open_count_close(s, i as int, books[j].id);
                    }
                    assert forall|k: int| 0 <= k < self.loans().len() implies loan_wf(
                        books,
                        #[trigger] self.loans()[k],
                    ) by {
                        assert(loan_wf(books, s[k]));
                    }
                    assert(first_returnable(s, member_id, book_id, i as int));
                }
                return Ok(());
            }
            i = i + 1;
        }
        Err(LendingError::NoOpenLoan)
    }

    /// Lends a copy of the first book with this exact title to the first user
    /// with this exact display name. Refused with `BookNotFound` or
    /// `MemberNotFound` when either is unmatched, and otherwise as
    /// `borrow_book` is.
    pub fn borrow_by_title_and_name(&mut self, title: &String, user_name: &String, now: u64) -> (r:
        Result<Loan, LendingError>)
        requires
            old(self).wf(),
            now <= u64::MAX - LOAN_PERIOD,
        ensures
            final(self).wf(),
            r == borrow_by_name_outcome(
                old(self).books(),
                old(self).users(),
                old(self).loans(),
                title@,
                user_name@,
                now,
            ),
            final(self).books() == old(self).books(),
            final(self).users() == old(self).users(),
            final(self).loans() == loans_after(old(self).loans(), r),
    {
        match self.catalog.find_by_title(title) {
            None => Err(LendingError::BookNotFound),
            Some(book) => match self.membership.find_by_name(user_name) {
                None => Err(LendingError::MemberNotFound),
                Some(user) => self.borrow_book(user.id, book.id, now),
            },
        }
    }

    /// Lends a copy of a book to the user registered for an account.
    /// Refused with `MemberNotFound` for an unregistered account, and
    /// otherwise as `borrow_book` is.
    pub fn borrow_for_account(&mut self, account: &String, book_id: u64, now: u64) -> (r: Result<
        Loan,
        LendingError,
    >)
        requires
            old(self).wf(),
            now <= u64::MAX - LOAN_PERIOD,
        ensures
            final(self).wf(),
            r == account_borrow_outcome(
                old(self).books(),
                old(self).users(),
                old(self).loans(),
                account@,
                book_id,
                now,
            ),
            final(self).books() == old(self).books(),
            final(self).users() == old(self).users(),
            final(self).loans() == loans_after(old(self).loans(), r),
    {
        match self.membership.find_by_account(account) {
            None => Err(LendingError::MemberNotFound),
            Some(user) => self.borrow_book(user.id, book_id, now),
        }
    }

    /// A member's loans, open and closed, in the order made; `None` when the
    /// member has never borrowed (a record exists once a first loan is made).
    pub fn get_books_borrowed(&self, member_id: u64) -> (r: Option<Vec<Loan>>)
        ensures
            match r {
                None => loans_of(self.loans(), member_id).len() == 0,
                Some(v) => v@ == loans_of(self.loans(), member_id) && v@.len() > 0,
            },
    {
        let mut out: Vec<Loan> = Vec::new();
        let mut i: usize = 0;
        while i < self.loans.len()
            invariant
                i <= self.loans@.len(),
                out@ == loans_of(self.loans@.take(i as int), member_id),
            decreases self.loans@.len() - i,
        {
            assert(self.loans@.take(i + 1).drop_last() =~= self.loans@.take(i as int));
            if self.loans[i].member_id == member_id {
                out.push(self.loans[i]);
            }
            i = i + 1;
        }
        assert(self.loans@.take(i as int) =~= self.loans@);
        if out.len() == 0 {
            None
        } else {
            Some(out)
        }
    }

    /// Adds copies of a book and returns its new total. Refused with
    /// `BookNotFound` for an unknown id and with `TooManyCopies` when the
    /// total would exceed `u16::MAX`.
    pub fn add_copies(&mut self, book_id: u64, extra: u16) -> (r: Result<u16, LendingError>)
        requires
            old(self).wf(),
        ensures
            final(self).wf(),
            final(self).users() == old(self).users(),
            final(self).loans() == old(self).loans(),
            !has_book(old(self).books(), book_id) ==> r == Err::<u16, LendingError>(
                LendingError::BookNotFound,
            ) && final(self).books() == old(self).books(),
            has_book(old(self).books(), book_id) && book_of(old(self).books(), book_id).copies + extra
                > u16::MAX ==> r == Err::<u16, LendingError>(LendingError::TooManyCopies) && final(self).books() == old(self).books(),
            has_book(old(self).books(), book_id) && book_of(old(self).books(), book_id).copies + extra
                <= u16::MAX ==> r == Ok::<u16, LendingError>(
                (book_of(old(self).books(), book_id).copies + extra) as u16,
            ) && exists|i: int|
                0 <= i < old(self).books().len() && old(self).books()[i].id == book_id && final(self).books() == old(self).books().update(
                    i,
                    Book { copies: (old(self).books()[i].copies + extra) as u16, ..old(self).books()[i] },
                ),
    {
        match self.catalog.index_of_id(book_id) {
            None => Err(LendingError::BookNotFound),
            Some(i) => {
                let copies = self.catalog.book_at(i).copies;
                if copies > u16::MAX - extra {
                    Err(LendingError::TooManyCopies)
                } else {
                    let total = copies + extra;
                    self.catalog.set_copies(i, total);
                    proof {
                        let ob = old(self).books();
                        let books = self.books();
                        let loans = self.loans();
                        assert forall|j: int| 0 <= j < books.len() implies open_count(
                            loans,
                            #[trigger] books[j].id,
                        ) <= books[j].copies by {
                            assert(books[j].id == ob[j].id);
                        }
                        assert forall|k: int| 0 <= k < loans.len() implies loan_wf(
                            books,
                            #[trigger] loans[k],
                        ) by {
                            assert(loan_wf(ob, loans[k]));
                            let w = choose|w: int| 0 <= w < ob.len() && ob[w].id == loans[k].book_id;
                            assert(books[w].id == ob[w].id);
                        }
                    }
                    Ok(total)
                }
            },
        }
    }

    /// Every registered user, in registration order.
    pub fn get_users(&self) -> (r: Vec<User>)
        ensures
            r@ == self.users(),
    {
        self.membership.get_all()
    }

    /// Every catalogued book, in insertion order.
    pub fn get_books(&self) -> (r: Vec<Book>)
        ensures
            r@ == self.books(),
    {
        self.catalog.get_all()
    }

    /// Number of catalogued books.
    pub fn get_books_length(&self) -> (r: usize)
        ensures
            r == self.books().len(),
    {
        self.catalog.count()
    }

    /// Number of registered users.
    pub fn get_users_length(&self) -> (r: usize)
        ensures
            r == self.users().len(),
    {
        self.membership.count()
    }

    /// The book with this id.
    pub fn find_book(&self, book_id: u64) -> (r: Option<Book>)
        requires
            self.wf(),
        ensures
            has_book(self.books(), book_id) ==> r == Some(book_of(self.books(), book_id)),
            !has_book(self.books(), book_id) ==> r.is_none(),
    {
        self.catalog.find_by_id(book_id)
    }

    /// The first book with exactly this title.
    pub fn find_book_by_title(&self, title: &String) -> (r: Option<Book>)
        ensures
            r == find_title(self.books(), title@),
    {
        self.catalog.find_by_title(title)
    }

    /// The first user with exactly this display name.
    pub fn find_user_by_name(&self, user_name: &String) -> (r: Option<User>)
        ensures
            r == find_name(self.users(), user_name@),
    {
        self.membership.find_by_name(user_name)
    }

    /// The first user registered for exactly this account.
    pub fn find_user_by_account(&self, account: &String) -> (r: Option<User>)
        ensures
            r == find_account(self.users(), account@),
    {
        self.membership.find_by_account(account)
    }

    /// Adds a book with one copy at time `now` and returns its id, which no
    /// earlier book carries.
    pub fn add_book(
        &mut self,
        name: String,
        category: String,
        drawer: u8,
        column: u8,
        now: u64,
    ) -> (r: u64)
        requires
            old(self).wf(),
            id_available(old(self).books(), now),
        ensures
            final(self).wf(),
            r == next_book_id(old(self).books(), now),
            final(self).books() == old(self).books().push(
                new_book(r, name, category@, drawer, column),
            ),
            forall|i: int| 0 <= i < old(self).books().len() ==> old(self).books()[i].id != r,
            final(self).users() == old(self).users(),
            final(self).loans() == old(self).loans(),
    {
        let id = self.catalog.add_book(name, category, drawer, column, now);
        proof {
            let old_books = old(self).books();
            let books = self.books();
            let loans = self.loans();
            assert forall|k: int| 0 <= k < loans.len() implies #[trigger] loans[k].book_id != id by {
                assert(loan_wf(old_books, loans[k]));
                let w = choose|w: int| 0 <= w < old_books.len() && old_books[w].id == loans[k].book_id;
                assert(books[w] == old_books[w]);
            }
            lemma_open_count_absent(loans, id);
            assert forall|j: int| 0 <= j < books.len() implies open_count(
                loans,
                #[trigger] books[j].id,
            ) <= books[j].copies by {
                if j < old_books.len() {
                    assert(books[j] == old_books[j]);
                }
            }
            assert forall|k: int| 0 <= k < loans.len() implies loan_wf(books, #[trigger] loans[k]) by {
                assert(loan_wf(old_books, loans[k]));
                let w = choose|w: int| 0 <= w < old_books.len() && old_books[w].id == loans[k].book_id;
                assert(books[w] == old_books[w]);
            }
        }
        id
    }

    /// Registers a user for an account, not yet a confirmed member, and
    /// returns its fresh id.
    pub fn add_user(&mut self, account: String, user_name: String) -> (r: u64)
        requires
            old(self).wf(),
            old(self).users().len() < u64::MAX,
        ensures
            final(self).wf(),
            r == old(self).users().len(),
            final(self).users() == old(self).users().push(new_user(r, account, user_name)),
            final(self).books() == old(self).books(),
            final(self).loans() == old(self).loans(),
    {
        self.membership.add_user(account, user_name)
    }
}

impl Default for AppLibrary {
    fn default() -> (r: AppLibrary)
        ensures
            r.wf(),
            r.books() == Seq::<Book>::empty(),
            r.users() == Seq::<User>::empty(),
            r.loans() == Seq::<Loan>::empty(),
    {
        AppLibrary::new()
    }
}

} // verus!
