use vstd::prelude::*;

verus! {

/// The closed set of shelf categories a book can be filed under.
#[derive(Clone, Copy, Debug, PartialEq, Eq, Structural)]
pub enum Category {
    Any,
    War,
    Fantasy,
}

/// The category a category name stands for: exact, case-sensitive names;
/// any other name falls back to `Any`.
pub open spec fn category_of(name: Seq<char>) -> Category {
    if name == "war"@ {
        Category::War
    } else if name == "fantasy"@ {
        Category::Fantasy
    } else {
        Category::Any
    }
}

/// Normalizes a category name into the closed category set.
pub fn category_from_name(name: &String) -> (r: Category)
    ensures
        r == category_of(name@),
{
    let war = "war".to_owned();
    let fantasy = "fantasy".to_owned();
    proof {
        reveal_strlit("war");
        reveal_strlit("fantasy");
    }
    if *name == war {
        Category::War
    } else if *name == fantasy {
        Category::Fantasy
    } else {
        Category::Any
    }
}


/// The physical slot a book is shelved in.
#[derive(Clone, Copy, Debug, PartialEq, Eq, Structural)]
pub struct Location {
    pub drawer: u8,
    pub column: u8,
}

/// One catalog entry.
#[derive(Debug)]
pub struct Book {
    pub id: u64,
    pub title: String,
    pub copies: u16,
    pub category: Category,
    pub location: Location,
}

impl Book {
    /// An independent copy of this record.
    pub fn duplicate(&self) -> (r: Book)
        ensures
            r == *self,
    {
        Book {
            id: self.id,
            title: self.title.clone(),
            copies: self.copies,
            category: self.category,
            location: self.location,
        }
    }
}

/// Book ids grow strictly with position, so no two entries share one.
pub open spec fn ids_increasing(books: Seq<Book>) -> bool {
    forall|i: int, j: int| 0 <= i < j < books.len() ==> books[i].id < books[j].id
}

/// Some entry carries this id.
pub open spec fn has_book(books: Seq<Book>, id: u64) -> bool {
    exists|i: int| 0 <= i < books.len() && books[i].id == id
}

/// The entry that carries this id (meaningful where `has_book` holds).
pub open spec fn book_of(books: Seq<Book>, id: u64) -> Book {
    books[choose|i: int| 0 <= i < books.len() && books[i].id == id]
}

/// The first entry with this exact title, if any.
pub open spec fn find_title(books: Seq<Book>, title: Seq<char>) -> Option<Book>
    decreases books.len(),
{
    if books.len() == 0 {
        None
    } else if books[0].title@ == title {
        Some(books[0])
    } else {
        find_title(books.drop_first(), title)
    }
}

/// The id a book added at time `now` receives: the time itself, or one past
/// the newest id where the clock has not moved beyond it.
pub open spec fn next_book_id(books: Seq<Book>, now: u64) -> u64 {
    if books.len() == 0 || books.last().id < now {
        now
    } else {
        (books.last().id + 1) as u64
    }
}

/// A further id can be handed out at time `now` without leaving `u64`.
pub open spec fn id_available(books: Seq<Book>, now: u64) -> bool {
    books.len() == 0 || books.last().id < now || books.last().id < u64::MAX
}

/// The entry `add_book` appends.
pub open spec fn new_book(
    id: u64,
    title: String,
    category: Seq<char>,
    drawer: u8,
    column: u8,
) -> Book {
    Book {
        id,
        title,
        copies: 1,
        category: category_of(category),
        location: Location { drawer, column },
    }
}

/// If the ids increase, the entry found by id is the one at any index with
/// that id.
pub proof fn lemma_book_of_index(books: Seq<Book>, i: int)
    requires
        ids_increasing(books),
        0 <= i < books.len(),
    ensures
        has_book(books, books[i].id),
        book_of(books, books[i].id) == books[i],
{
    let id = books[i].id;
    assert(books[i].id == id);
    let j = choose|j: int| 0 <= j < books.len() && books[j].id == id;
    assert(j == i);
}

/// The authoritative store of book records, in insertion order.
pub struct Catalog {
    books: Vec<Book>,
}

impl View for Catalog {
    type V = Seq<Book>;

    closed spec fn view(&self) -> Seq<Book> {
        self.books@
    }
}

impl Catalog {
    /// Well-formed: ids strictly increase with insertion order.
    pub open spec fn wf(&self) -> bool {
        ids_increasing(self@)
    }

    /// An empty catalog.
    pub fn new() -> (r: Catalog)
        ensures
            r@ == Seq::<Book>::empty(),
            r.wf(),
    {
        Catalog { books: Vec::new() }
    }

    /// Adds a book with one copy, filed under the category its name stands
    /// for, and returns its fresh id.
    pub fn add_book(
        &mut self,
        title: String,
        category: String,
        drawer: u8,
        column: u8,
        now: u64,
    ) -> (r: u64)
        requires
            old(self).wf(),
            id_available(old(self)@, now),
        ensures
            final(self).wf(),
            r == next_book_id(old(self)@, now),
            final(self)@ == old(self)@.push(new_book(r, title, category@, drawer, column)),
            forall|i: int| 0 <= i < old(self)@.len() ==> old(self)@[i].id < r,
    {
        let n = self.books.len();
        let id: u64 = if n == 0 || self.books[n - 1].id < now {
            now
        } else {
            self.books[n - 1].id + 1
        };
        let category = category_from_name(&category);
        let book = Book {
            id,
            title,
            copies: 1,
            category,
            location: Location { drawer, column },
        };
        self.books.push(book);
        proof {
            let s = old(self)@;
            assert forall|i: int| 0 <= i < s.len() implies s[i].id < id by {
                if i < s.len() - 1 {
                    assert(s[i].id < s[s.len() - 1].id);
                }
            }
        }
        id
    }

    /// Position of the entry with this id, if any.
    pub fn index_of_id(&self, id: u64) -> (r: Option<usize>)
        requires
            self.wf(),
        ensures
            match r {
                Some(i) => i < self@.len() && self@[i as int].id == id && book_of(self@, id)
                    == self@[i as int],
                None => !has_book(self@, id),
            },
    {
        let mut i: usize = 0;
        while i < self.books.len()
            invariant
                i <= self@.len(),
                self.books@ == self@,
                self.wf(),
                forall|j: int| 0 <= j < i ==> self@[j].id != id,
            decreases self@.len() - i,
        {
            if self.books[i].id == id {
                proof {
                    lemma_book_of_index(self@, i as int);
                }
                return Some(i);
            }
            i = i + 1;
        }
        None
    }

    /// The record with this id, if any.
    pub fn find_by_id(&self, id: u64) -> (r: Option<Book>)
        requires
            self.wf(),
        ensures
            has_book(self@, id) ==> r == Some(book_of(self@, id)),
            !has_book(self@, id) ==> r.is_none(),
    {
        match self.index_of_id(id) {
            Some(i) => Some(self.books[i].duplicate()),
            None => None,
        }
    }

    /// The first record with exactly this title; later duplicates are not
    /// merged and never found ahead of it.
    pub fn find_by_title(&self, title: &String) -> (r: Option<Book>)
        ensures
            r == find_title(self@, title@),
    {
        assert(self@.subrange(0, self@.len() as int) =~= self@);
        let mut i: usize = 0;
        while i < self.books.len()
            invariant
                i <= self@.len(),
                self.books@ == self@,
                find_title(self@, title@) == find_title(self@.subrange(i as int, self@.len() as int), title@),
            decreases self@.len() - i,
        {
            let ghost rest = self@.subrange(i as int, self@.len() as int);
            assert(rest.drop_first() =~= self@.subrange(i + 1, self@.len() as int));
            if self.books[i].title == *title {
                return Some(self.books[i].duplicate());
            }
            i = i + 1;
        }
        None
    }

    /// A fresh snapshot of every record, in insertion order.
    pub fn get_all(&self) -> (r: Vec<Book>)
        ensures
            r@ == self@,
    {
        let mut out: Vec<Book> = Vec::new();
        let mut i: usize = 0;
        while i < self.books.len()
            invariant
                i <= self@.len(),
                self.books@ == self@,
                out@ == self@.subrange(0, i as int),
            decreases self@.len() - i,
        {
            out.push(self.books[i].duplicate());
            i = i + 1;
            assert(out@ =~= self@.subrange(0, i as int));
        }
        assert(out@ =~= self@);
        out
    }

    /// The entry at a position.
    pub fn book_at(&self, i: usize) -> (r: &Book)
        requires
            i < self@.len(),
        ensures
            *r == self@[i as int],
    {
        &self.books[i]
    }

    /// Sets the number of copies of the entry at a position.
    pub fn set_copies(&mut self, i: usize, copies: u16)
        requires
            old(self).wf(),
            i < old(self)@.len(),
        ensures
            final(self).wf(),
            final(self)@ == old(self)@.update(i as int, Book { copies, ..old(self)@[i as int] }),
    {
        self.books[i].copies = copies;
        proof {
            assert forall|a: int, b: int| 0 <= a < b < self@.len() implies self@[a].id < self@[b].id by {
                assert(self@[a].id == old(self)@[a].id);
                assert(self@[b].id == old(self)@[b].id);
            }
        }
    }

    /// Number of entries.
    pub fn count(&self) -> (r: usize)
        ensures
            r == self@.len(),
    {
        self.books.len()
    }
}

} // verus!
