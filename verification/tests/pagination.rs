use mezon_ui::pagination::{pagination_button_id, pagination_items, pagination_slot_count, PaginationButton};

#[test]
fn pagination_edges_match_management_lists() {
    assert_eq!(pagination_items(5, 6), vec![Some(0), Some(1), Some(2), Some(3), Some(4), Some(5)]);
    assert_eq!(pagination_items(0, 10), vec![Some(0), Some(1), Some(2), Some(3), Some(4), None, Some(9)]);
    assert_eq!(pagination_items(9, 10), vec![Some(0), None, Some(5), Some(6), Some(7), Some(8), Some(9)]);
}

#[test]
fn every_page_is_drawn_while_they_fit() {
    assert_eq!(pagination_items(0, 1), vec![Some(0)]);
    assert_eq!(pagination_items(3, 7), (0..7).map(Some).collect::<Vec<_>>());
}

#[test]
fn the_slot_count_never_depends_on_the_current_page() {
    for pages in [8, 9, 10, 50, 124] {
        for current in 0..pages {
            assert_eq!(pagination_items(current, pages).len(), pagination_slot_count(pages), "page {current} of {pages}");
        }
    }
}

#[test]
fn head_middle_and_tail_follow_mui() {
    assert_eq!(pagination_items(0, 124), vec![Some(0), Some(1), Some(2), Some(3), Some(4), None, Some(123)]);
    assert_eq!(pagination_items(60, 124), vec![Some(0), None, Some(59), Some(60), Some(61), None, Some(123)]);
    assert_eq!(
        pagination_items(123, 124),
        vec![Some(0), None, Some(119), Some(120), Some(121), Some(122), Some(123)]
    );
}

#[test]
fn an_ellipsis_never_hides_just_one_page() {
    for pages in [8, 9, 10, 124] {
        for current in 0..pages {
            let items = pagination_items(current, pages);
            for window in items.windows(3) {
                if let [Some(before), None, Some(after)] = window {
                    assert!(after - before > 2, "{items:?} (page {current} of {pages})");
                }
            }
        }
    }
}

#[test]
fn the_current_page_is_always_on_the_strip() {
    for pages in [8, 10, 124] {
        for current in 0..pages {
            assert!(pagination_items(current, pages).contains(&Some(current)));
        }
    }
}

#[test]
fn no_pages_draw_no_slots_and_a_current_page_past_the_end_clamps() {
    assert_eq!(pagination_items(0, 0), Vec::<Option<usize>>::new());
    assert_eq!(pagination_slot_count(0), 0);
    assert_eq!(pagination_items(500, 10), vec![Some(0), None, Some(5), Some(6), Some(7), Some(8), Some(9)]);
}

#[test]
fn button_ids_name_their_role() {
    assert_eq!(pagination_button_id("members", PaginationButton::Previous), "members-pagination-previous");
    assert_eq!(pagination_button_id("members", PaginationButton::Next), "members-pagination-next");
    assert_eq!(pagination_button_id("x", PaginationButton::Page(12)), "x-pagination-page-12");
}
