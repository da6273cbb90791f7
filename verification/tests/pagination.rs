use union_governance::pagination::{page_of_copied, PageRequest, Pageable};
use union_governance::voting::{Voting, VotingRepository};

#[test]
fn pages_tile_the_listing() {
    // Five items with page size two yield three pages: 2 + 2 + 1, and the
    // concatenation reproduces the listing in order.
    let items: Vec<u64> = vec![10, 20, 30, 40, 50];

    let p0 = page_of_copied(&items, 0, 2);
    assert_eq!(p0.data, vec![10, 20]);
    assert!(p0.has_next);

    let p1 = page_of_copied(&items, 1, 2);
    assert_eq!(p1.data, vec![30, 40]);
    assert!(p1.has_next);

    let p2 = page_of_copied(&items, 2, 2);
    assert_eq!(p2.data, vec![50]);
    assert!(!p2.has_next);

    let p3 = page_of_copied(&items, 3, 2);
    assert!(p3.data.is_empty());
    assert!(!p3.has_next);

    let mut all: Vec<u64> = vec![];
    all.extend(p0.data);
    all.extend(p1.data);
    all.extend(p2.data);
    assert_eq!(all, items);
}

#[test]
fn exact_division_has_no_phantom_page() {
    let items: Vec<u64> = vec![1, 2, 3, 4];
    let p0 = page_of_copied(&items, 0, 2);
    let p1 = page_of_copied(&items, 1, 2);
    assert!(p0.has_next);
    assert!(!p1.has_next);
    assert_eq!(p1.data, vec![3, 4]);
    let p2 = page_of_copied(&items, 2, 2);
    assert!(p2.data.is_empty());
}

#[test]
fn empty_listing_yields_one_empty_page() {
    let items: Vec<u64> = vec![];
    let p0 = page_of_copied(&items, 0, 3);
    assert!(p0.data.is_empty());
    assert!(!p0.has_next);
}

#[test]
fn repositories_page_their_listing() {
    let mut votings = VotingRepository::new();
    let mut ids = vec![];
    let mut k = 0;
    while k < 5 {
        let v = Voting::new(0, format!("Voting {}", k), String::new(), 1, 1, 5).unwrap();
        ids.push(votings.save(v));
        k += 1;
    }
    let req = PageRequest {
        page_index: 1,
        page_size: 2,
        filter: (),
        sort: (),
    };
    let page = votings.get_page(&req);
    assert_eq!(page.data, vec![ids[2], ids[3]]);
    assert!(page.has_next);
}
