use app_library::{category_from_name, AppLibrary, Category, LendingError, Location, LOAN_PERIOD};

#[test]
fn add_book() {
    let mut app = AppLibrary::default();
    app.add_book("IT Manual".to_string(), "manuals".to_string(), 8, 3, 9999);
    assert_eq!(app.get_books_length(), 1);
}

#[test]
fn add_user() {
    let mut app = AppLibrary::default();
    app.add_user("chagalla.testnet".to_string(), "Frank".to_string());
    assert_eq!(app.get_users_length(), 1);
}

#[test]
fn borrow_book_item() {
    let mut app = AppLibrary::default();
    app.add_book("Sample".to_string(), "manuals".to_string(), 8, 3, 9999);
    assert_eq!(app.get_books().len(), 1);

    let user = app.add_user("chagalla.testnet".to_string(), "Chagalla".to_string());
    assert_eq!(app.get_users_length(), 1);

    app.borrow_book(user, 9999, 9999).unwrap();

    match app.get_books_borrowed(user) {
        Some(bkx) => {
            assert_eq!(bkx.len(), 1)
        }
        None => panic!("book borrowed by user nt found"),
    }
}

#[test]
fn add_book_returns_id_and_counts() {
    let mut app = AppLibrary::new();
    let id = app.add_book("IT Manual".to_string(), "manuals".to_string(), 8, 3, 9999);
    assert_eq!(id, 9999);
    assert_eq!(app.get_books_length(), 1);
    let book = app.find_book(id).unwrap();
    assert_eq!(book.title, "IT Manual");
    assert_eq!(book.copies, 1);
    assert_eq!(book.category, Category::Any);
    assert_eq!(book.location, Location { drawer: 8, column: 3 });
}

#[test]
fn add_book_ids_distinct_at_same_time() {
    let mut app = AppLibrary::new();
    let a = app.add_book("A".to_string(), "war".to_string(), 1, 1, 50);
    let b = app.add_book("B".to_string(), "war".to_string(), 1, 2, 50);
    let c = app.add_book("C".to_string(), "war".to_string(), 1, 3, 10);
    let d = app.add_book("D".to_string(), "war".to_string(), 1, 4, 100);
    assert_eq!((a, b, c, d), (50, 51, 52, 100));
    assert_eq!(app.get_books_length(), 4);
}

#[test]
fn add_book_at_largest_id() {
    let mut app = AppLibrary::new();
    let a = app.add_book("A".to_string(), "".to_string(), 0, 0, u64::MAX - 1);
    let b = app.add_book("B".to_string(), "".to_string(), 0, 0, 0);
    assert_eq!((a, b), (u64::MAX - 1, u64::MAX));
}

#[test]
fn add_member_not_confirmed() {
    let mut app = AppLibrary::new();
    let id = app.add_user("frank.testnet".to_string(), "Frank".to_string());
    assert_eq!(id, 0);
    assert_eq!(app.get_users_length(), 1);
    let users = app.get_users();
    assert_eq!(users.len(), 1);
    assert_eq!(users[0].name, "Frank");
    assert!(!users[0].is_member);
    let second = app.add_user("other.testnet".to_string(), "Frank".to_string());
    assert_eq!(second, 1);
    assert_eq!(app.find_user_by_name(&"Frank".to_string()).unwrap().id, 0);
    assert_eq!(app.find_user_by_account(&"other.testnet".to_string()).unwrap().id, 1);
    assert!(app.find_user_by_name(&"frank".to_string()).is_none());
}

#[test]
fn second_borrow_of_single_copy_refused() {
    let mut app = AppLibrary::new();
    let sample = app.add_book("Sample".to_string(), "manuals".to_string(), 8, 3, 9999);
    let chagalla = app.add_user("chagalla.testnet".to_string(), "Chagalla".to_string());
    let loan = app.borrow_book(chagalla, sample, 9999).unwrap();
    assert_eq!(loan.book_id, sample);
    assert_eq!(loan.member_id, chagalla);
    assert_eq!(loan.borrowed_at, 9999);
    assert!(loan.open);
    assert_eq!(app.borrow_book(42, sample, 10000), Err(LendingError::NoCopiesAvailable));
    assert_eq!(app.borrow_book(chagalla, sample, 10000), Err(LendingError::NoCopiesAvailable));
    assert_eq!(app.get_books_borrowed(42), None);
}

#[test]
fn borrow_unknown_book_changes_nothing() {
    let mut app = AppLibrary::new();
    let member = app.add_user("a.testnet".to_string(), "A".to_string());
    assert_eq!(app.borrow_book(member, 12345, 1), Err(LendingError::BookNotFound));
    assert_eq!(app.get_books_borrowed(member), None);
}

#[test]
fn same_title_twice_not_merged() {
    let mut app = AppLibrary::new();
    let first = app.add_book("Dune".to_string(), "war".to_string(), 1, 1, 7);
    let second = app.add_book("Dune".to_string(), "war".to_string(), 2, 2, 7);
    assert_ne!(first, second);
    assert_eq!(app.find_book(first).unwrap().category, Category::War);
    assert_eq!(app.find_book(second).unwrap().category, Category::War);
    let found = app.find_book_by_title(&"Dune".to_string()).unwrap();
    assert_eq!(found.id, first);
    assert!(app.find_book_by_title(&"dune".to_string()).is_none());
}

#[test]
fn category_names() {
    assert_eq!(category_from_name(&"war".to_string()), Category::War);
    assert_eq!(category_from_name(&"fantasy".to_string()), Category::Fantasy);
    assert_eq!(category_from_name(&"War".to_string()), Category::Any);
    assert_eq!(category_from_name(&"manuals".to_string()), Category::Any);
    assert_eq!(category_from_name(&"".to_string()), Category::Any);
}

#[test]
fn capacity_follows_open_loans() {
    let mut app = AppLibrary::new();
    let book = app.add_book("Atlas".to_string(), "".to_string(), 0, 0, 1);
    assert_eq!(app.add_copies(book, 2), Ok(3));
    for member in 0..3u64 {
        assert!(app.borrow_book(member, book, 10).is_ok());
    }
    assert_eq!(app.borrow_book(3, book, 10), Err(LendingError::NoCopiesAvailable));
    assert_eq!(app.return_book(1, book), Ok(()));
    assert!(app.borrow_book(3, book, 11).is_ok());
    assert_eq!(app.borrow_book(4, book, 12), Err(LendingError::NoCopiesAvailable));
}

#[test]
fn loan_due_one_period_later() {
    let mut app = AppLibrary::new();
    let book = app.add_book("Atlas".to_string(), "".to_string(), 0, 0, 1);
    let loan = app.borrow_book(0, book, 9999).unwrap();
    assert_eq!(LOAN_PERIOD, 86_400_000_000_000);
    assert_eq!(loan.due_at - loan.borrowed_at, LOAN_PERIOD);
    assert_eq!(loan.due_at, 9999 + 86_400_000_000_000);
    assert!(!loan.is_overdue(loan.due_at));
    assert!(loan.is_overdue(loan.due_at + 1));
}

#[test]
fn loans_listed_in_borrow_order() {
    let mut app = AppLibrary::new();
    let a = app.add_book("A".to_string(), "".to_string(), 0, 0, 1);
    let b = app.add_book("B".to_string(), "".to_string(), 0, 0, 2);
    assert_eq!(app.add_copies(a, 1), Ok(2));
    app.borrow_book(5, a, 100).unwrap();
    app.borrow_book(6, b, 101).unwrap();
    app.borrow_book(5, b, 102).unwrap_err();
    app.borrow_book(5, a, 103).unwrap();
    let loans = app.get_books_borrowed(5).unwrap();
    assert_eq!(loans.len(), 2);
    assert_eq!((loans[0].book_id, loans[0].borrowed_at), (a, 100));
    assert_eq!((loans[1].book_id, loans[1].borrowed_at), (a, 103));
    assert_eq!(app.get_books_borrowed(6).unwrap().len(), 1);
}

#[test]
fn return_closes_earliest_open_loan() {
    let mut app = AppLibrary::new();
    let a = app.add_book("A".to_string(), "".to_string(), 0, 0, 1);
    app.add_copies(a, 1).unwrap();
    app.borrow_book(5, a, 100).unwrap();
    app.borrow_book(5, a, 200).unwrap();
    assert_eq!(app.return_book(5, a), Ok(()));
    let loans = app.get_books_borrowed(5).unwrap();
    assert!(!loans[0].open);
    assert!(loans[1].open);
    assert_eq!(app.return_book(5, a), Ok(()));
    assert_eq!(app.return_book(5, a), Err(LendingError::NoOpenLoan));
    assert_eq!(app.return_book(5, 777), Err(LendingError::BookNotFound));
    assert_eq!(app.get_books_borrowed(5).unwrap().len(), 2);
}

#[test]
fn add_copies_errors() {
    let mut app = AppLibrary::new();
    let a = app.add_book("A".to_string(), "".to_string(), 0, 0, 1);
    assert_eq!(app.add_copies(99, 1), Err(LendingError::BookNotFound));
    assert_eq!(app.add_copies(a, u16::MAX), Err(LendingError::TooManyCopies));
    assert_eq!(app.add_copies(a, u16::MAX - 1), Ok(u16::MAX));
    assert_eq!(app.find_book(a).unwrap().copies, u16::MAX);
}

#[test]
fn borrow_by_title_and_name_resolves_both() {
    let mut app = AppLibrary::new();
    let sample = app.add_book("Sample".to_string(), "".to_string(), 0, 0, 1);
    app.add_book("Sample".to_string(), "".to_string(), 0, 0, 2);
    let member = app.add_user("c.testnet".to_string(), "Chagalla".to_string());
    assert_eq!(
        app.borrow_by_title_and_name(&"Missing".to_string(), &"Chagalla".to_string(), 5),
        Err(LendingError::BookNotFound)
    );
    assert_eq!(
        app.borrow_by_title_and_name(&"Sample".to_string(), &"Nobody".to_string(), 5),
        Err(LendingError::MemberNotFound)
    );
    let loan = app
        .borrow_by_title_and_name(&"Sample".to_string(), &"Chagalla".to_string(), 5)
        .unwrap();
    assert_eq!((loan.book_id, loan.member_id), (sample, member));
    assert_eq!(
        app.borrow_by_title_and_name(&"Sample".to_string(), &"Chagalla".to_string(), 6),
        Err(LendingError::NoCopiesAvailable)
    );
}

#[test]
fn borrow_for_account_resolves_member() {
    let mut app = AppLibrary::new();
    let book = app.add_book("Sample".to_string(), "".to_string(), 0, 0, 1);
    app.add_user("a.testnet".to_string(), "A".to_string());
    let b = app.add_user("b.testnet".to_string(), "B".to_string());
    assert_eq!(
        app.borrow_for_account(&"z.testnet".to_string(), book, 3),
        Err(LendingError::MemberNotFound)
    );
    let loan = app.borrow_for_account(&"b.testnet".to_string(), book, 3).unwrap();
    assert_eq!(loan.member_id, b);
}
