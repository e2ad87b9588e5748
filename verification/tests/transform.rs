use dataview_rewrite::fence::transform_dataview_queries;

#[test]
fn it_parses() {
    let result = transform_dataview_queries(
        "
        Test

        ```dataview
            FOR test
                FROM wherever
                WHERE something
        ```

        Test2",
    )
    .unwrap();

    println!("RESULT: {result}");

    assert_eq!(
        result,
        "
        Test

        <!-- QueryToSerialize: FOR test FROM wherever WHERE something -->

        Test2"
            .to_string()
    );
}

#[test]
fn it_parses_multiple_in_one_file() {
    let result = transform_dataview_queries(
        "
        Test

        ```dataview
            FOR test
                FROM wherever
                WHERE something
        ```

        Test-between

        ```dataview
            FOR another
                FROM test
                WHERE hello
        ```

        Test2",
    )
    .unwrap();

    println!("RESULT: {result}");

    assert_eq!(
        result,
        "
        Test

        <!-- QueryToSerialize: FOR test FROM wherever WHERE something -->

        Test-between

        <!-- QueryToSerialize: FOR another FROM test WHERE hello -->

        Test2"
            .to_string()
    );
}

#[test]
fn block_between_two_paragraphs_becomes_one_comment() {
    let input =
        "Test\n\n```dataview\n    FOR test\n        FROM wherever\n        WHERE something\n```\n\nTest2";
    assert_eq!(
        transform_dataview_queries(input),
        Some(
            "Test\n\n<!-- QueryToSerialize: FOR test FROM wherever WHERE something -->\n\nTest2"
                .to_string()
        )
    );
}

#[test]
fn two_blocks_become_two_comments_in_order() {
    let input = "a\n```dataview\nLIST\nFROM #x\n```\nbetween  the\tblocks\n```dataview\nTABLE y\n```\nz";
    assert_eq!(
        transform_dataview_queries(input),
        Some(
            "a\n<!-- QueryToSerialize: LISTFROM #x -->\nbetween  the\tblocks\n<!-- QueryToSerialize: TABLE y -->\nz"
                .to_string()
        )
    );
}

#[test]
fn text_without_a_block_gives_none() {
    assert_eq!(transform_dataview_queries(""), None);
    assert_eq!(transform_dataview_queries("just some text\nwith two lines\n"), None);
    assert_eq!(transform_dataview_queries("```rust\nfn main() {}\n```\n"), None);
}

#[test]
fn block_without_closing_fence_gives_none() {
    assert_eq!(transform_dataview_queries("```dataview\nLIST FROM #x\n"), None);
}

#[test]
fn block_ends_at_the_nearest_closing_fence() {
    let input = "```dataview\nLIST\n```\nkept ``` as it is\n";
    assert_eq!(
        transform_dataview_queries(input),
        Some("<!-- QueryToSerialize: LIST -->\nkept ``` as it is\n".to_string())
    );
}

#[test]
fn empty_and_blank_bodies_give_an_empty_query() {
    assert_eq!(
        transform_dataview_queries("```dataview```"),
        Some("<!-- QueryToSerialize:  -->".to_string())
    );
    assert_eq!(
        transform_dataview_queries("x```dataview \n\t \n```y"),
        Some("x<!-- QueryToSerialize:  -->y".to_string())
    );
}

#[test]
fn block_may_hold_blank_lines() {
    let input = "```dataview\nLIST\n\n\nFROM #x\n\n```";
    assert_eq!(
        transform_dataview_queries(input),
        Some("<!-- QueryToSerialize: LISTFROM #x -->".to_string())
    );
}

#[test]
fn text_outside_the_blocks_is_kept_byte_for_byte() {
    let input = "  \u{e9}t\u{e9} \u{1f600}\r\n\n```dataview\n \u{4e16}\u{754c}\u{3000}x \n```\t\u{a0}\n\n caf\u{e9}  ";
    assert_eq!(
        transform_dataview_queries(input),
        Some(
            "  \u{e9}t\u{e9} \u{1f600}\r\n\n<!-- QueryToSerialize: \u{4e16}\u{754c} x -->\t\u{a0}\n\n caf\u{e9}  "
                .to_string()
        )
    );
}

#[test]
fn the_tag_must_follow_the_fence_directly() {
    assert_eq!(transform_dataview_queries("``` dataview\nLIST\n```"), None);
    assert_eq!(transform_dataview_queries("```Dataview\nLIST\n```"), None);
}

#[test]
fn text_behind_the_tag_belongs_to_the_body() {
    assert_eq!(
        transform_dataview_queries("```dataviewjs\nx\n```"),
        Some("<!-- QueryToSerialize: jsx -->".to_string())
    );
}

#[test]
fn rewriting_a_rewritten_text_finds_nothing() {
    let once = transform_dataview_queries("a\n```dataview\nLIST\n```\nb").unwrap();
    assert_eq!(once, "a\n<!-- QueryToSerialize: LIST -->\nb");
    assert_eq!(transform_dataview_queries(&once), None);
}
