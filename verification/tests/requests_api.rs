use namada_adapter::ident::Height;
use namada_adapter::requests::{IncludeProof, PageRequest, Paginate, Qualified, QueryHeight};

#[test]
fn include_proof_to_bool() {
    assert!(IncludeProof::Yes.to_bool());
    assert!(!IncludeProof::No.to_bool());
}

#[test]
fn page_request_builders() {
    let all = PageRequest::all();
    assert!(all.key.is_empty());
    assert_eq!(all.offset, 0);
    assert_eq!(all.limit, u32::MAX as u64);
    assert!(!all.count_total);
    assert!(!all.reverse);
    let page = PageRequest::per_page(50);
    assert_eq!(page.limit, 50);
    let empty = PageRequest::default();
    assert_eq!(empty.limit, 0);
}

#[test]
fn paginate_accessors() {
    assert!(!Paginate::All.is_enabled());
    assert!(Paginate::PerPage { per_page: 10, total: 100 }.is_enabled());
    assert_eq!(Paginate::All.get_values(), (0, 0));
    assert_eq!(Paginate::PerPage { per_page: 10, total: 100 }.get_values(), (10, 100));
    assert_eq!(Paginate::default(), Paginate::All);
}

#[test]
fn qualified_keeps_its_qualifier() {
    let q: Qualified<u64> = Qualified::SmallerEqual(5);
    assert_eq!(q.get(), 5);
    let mapped = q.map(|v| v + 1);
    assert!(matches!(mapped, Qualified::SmallerEqual(6)));
    let e: Qualified<u64> = Qualified::Equal(5);
    assert!(matches!(e.map(|v| v * 2), Qualified::Equal(10)));
}

#[test]
fn query_height_resolution() {
    assert_eq!(QueryHeight::Latest.to_rpc_height(), None);
    let h = Height { revision_number: 1, revision_height: 44 };
    assert_eq!(QueryHeight::Specific(h).to_rpc_height(), Some(44));
}

#[test]
fn zero_heights_are_rejected() {
    assert!(Height::new(3, 0).is_none());
    assert_eq!(Height::new(3, 9), Some(Height { revision_number: 3, revision_height: 9 }));
}
