use pdf_pipeline::capture::CaptureType;
use pdf_pipeline::count::parse_page_count;
use pdf_pipeline::digits::format_usize;
use pdf_pipeline::order::merge_order;
use pdf_pipeline::plan::{chunk_size_for, plan_chunks, PageRange};

fn pr(start: usize, end: usize, ordinal: usize) -> PageRange {
    PageRange { start, end, ordinal }
}

#[test]
fn plan_ten_pages_in_threes() {
    let ranges = plan_chunks(10, 3);
    assert_eq!(ranges, vec![pr(1, 3, 0), pr(4, 6, 1), pr(7, 9, 2), pr(10, 10, 3)]);
}

#[test]
fn plan_exact_multiple() {
    let ranges = plan_chunks(9, 3);
    assert_eq!(ranges, vec![pr(1, 3, 0), pr(4, 6, 1), pr(7, 9, 2)]);
}

#[test]
fn plan_single_page() {
    assert_eq!(plan_chunks(1, 1), vec![pr(1, 1, 0)]);
    assert_eq!(plan_chunks(1, 100), vec![pr(1, 1, 0)]);
}

#[test]
fn plan_chunk_larger_than_document() {
    assert_eq!(plan_chunks(5, 8), vec![pr(1, 5, 0)]);
}

#[test]
fn plan_count_is_ceiling() {
    assert_eq!(plan_chunks(10, 3).len(), 4);
    assert_eq!(plan_chunks(12, 3).len(), 4);
    assert_eq!(plan_chunks(13, 3).len(), 5);
    assert_eq!(plan_chunks(1, 3).len(), 1);
}

#[test]
fn plan_is_contiguous_and_exhaustive() {
    let ranges = plan_chunks(907, 13);
    assert_eq!(ranges[0].start, 1);
    assert_eq!(ranges.last().unwrap().end, 907);
    for w in ranges.windows(2) {
        assert_eq!(w[0].end + 1, w[1].start);
    }
    for (i, r) in ranges.iter().enumerate() {
        assert!(r.start <= r.end);
        assert!(r.end - r.start + 1 <= 13);
        assert_eq!(r.ordinal, i);
    }
}

#[test]
fn plan_empty_document_yields_no_ranges() {
    assert_eq!(plan_chunks(0, 1), vec![]);
    assert_eq!(plan_chunks(0, 7), vec![]);
}

#[test]
fn chunk_size_rounds_up() {
    assert_eq!(chunk_size_for(10, 4), 3);
    assert_eq!(chunk_size_for(9, 3), 3);
    assert_eq!(chunk_size_for(8, 3), 3);
    assert_eq!(chunk_size_for(1, 8), 1);
    assert_eq!(chunk_size_for(0, 4), 0);
    assert_eq!(chunk_size_for(16, 4), 4);
}

#[test]
fn plan_never_exceeds_parallelism() {
    for (pages, workers) in [(10usize, 4usize), (5, 4), (1, 16), (16, 4), (907, 8)] {
        let chunk = chunk_size_for(pages, workers);
        assert!(plan_chunks(pages, chunk).len() <= workers);
    }
    assert_eq!(plan_chunks(10, chunk_size_for(10, 4)).len(), 4);
}

#[test]
fn format_usize_writes_decimal() {
    assert_eq!(format_usize(0), "0");
    assert_eq!(format_usize(7), "7");
    assert_eq!(format_usize(10), "10");
    assert_eq!(format_usize(907), "907");
    assert_eq!(format_usize(1000000), "1000000");
}

#[test]
fn page_count_reads_plain_number() {
    assert_eq!(parse_page_count("7"), 7);
    assert_eq!(parse_page_count("10"), 10);
    assert_eq!(parse_page_count("0"), 0);
}

#[test]
fn page_count_strips_whitespace() {
    assert_eq!(parse_page_count("  42\n"), 42);
    assert_eq!(parse_page_count("\t3\r\n"), 3);
}

#[test]
fn page_count_falls_back_to_zero() {
    assert_eq!(parse_page_count(""), 0);
    assert_eq!(parse_page_count("   \n"), 0);
    assert_eq!(parse_page_count("Error: no such file"), 0);
    assert_eq!(parse_page_count("12a"), 0);
    assert_eq!(parse_page_count("+5"), 0);
    assert_eq!(parse_page_count("-5"), 0);
    assert_eq!(parse_page_count("4 2"), 0);
    assert_eq!(parse_page_count("99999999999999999999999999999999"), 0);
}

#[test]
fn page_count_round_trips_formatted_numbers() {
    for n in [0usize, 1, 9, 10, 42, 907, 123456] {
        assert_eq!(parse_page_count(&format_usize(n)), n);
    }
}

#[test]
fn only_documents_are_split() {
    assert!(CaptureType::Pdf.needs_split());
    assert!(!CaptureType::Png.needs_split());
    assert_eq!(CaptureType::Pdf.extension(), "pdf");
    assert_eq!(CaptureType::Png.extension(), "png");
}

#[test]
fn merge_order_sorts_by_start() {
    let shuffled = vec![pr(7, 9, 2), pr(1, 3, 0), pr(10, 10, 3), pr(4, 6, 1)];
    let ordered = merge_order(&shuffled);
    assert_eq!(ordered, vec![pr(1, 3, 0), pr(4, 6, 1), pr(7, 9, 2), pr(10, 10, 3)]);
}

#[test]
fn merge_order_ignores_arrival_order() {
    let expected = vec![pr(1, 3, 0), pr(4, 6, 1), pr(7, 9, 2), pr(10, 10, 3)];
    let arrivals = [
        vec![pr(1, 3, 0), pr(4, 6, 1), pr(7, 9, 2), pr(10, 10, 3)],
        vec![pr(10, 10, 3), pr(7, 9, 2), pr(4, 6, 1), pr(1, 3, 0)],
        vec![pr(4, 6, 1), pr(10, 10, 3), pr(1, 3, 0), pr(7, 9, 2)],
        vec![pr(7, 9, 2), pr(10, 10, 3), pr(4, 6, 1), pr(1, 3, 0)],
    ];
    for arrival in arrivals.iter() {
        assert_eq!(merge_order(arrival), expected);
    }
}
