use pdf_pipeline::artifact::{
    chunk_file_name, compressed_artifact, parse_chunk_file_name, split_artifact, ArtifactStage,
};
use pdf_pipeline::command::{compress_args, count_args, merge_args, split_args};
use pdf_pipeline::pipeline::{
    collect_stage, step, ChunkOutcome, PipelineAction, PipelineError, PipelineEvent, PipelineState,
    StageKind, ToolStatus,
};
use pdf_pipeline::plan::PageRange;

fn pr(start: usize, end: usize, ordinal: usize) -> PageRange {
    PageRange { start, end, ordinal }
}

fn outcomes_for(ranges: &[PageRange], status_of: impl Fn(usize) -> ToolStatus) -> Vec<ChunkOutcome> {
    ranges.iter().enumerate().map(|(i, r)| ChunkOutcome { range: *r, status: status_of(i) }).collect()
}

#[test]
fn chunk_names_encode_the_range() {
    assert_eq!(chunk_file_name(1, 3), "chunk_1-3.pdf");
    assert_eq!(chunk_file_name(10, 10), "chunk_10-10.pdf");
}

#[test]
fn chunk_names_read_back_numerically() {
    assert_eq!(parse_chunk_file_name("chunk_1-3.pdf"), Some((1, 3)));
    assert_eq!(parse_chunk_file_name("chunk_10-10.pdf"), Some((10, 10)));
    let (two, _) = parse_chunk_file_name("chunk_2-2.pdf").unwrap();
    let (ten, _) = parse_chunk_file_name("chunk_10-10.pdf").unwrap();
    assert!(two < ten);
    assert!("chunk_10-10.pdf" < "chunk_2-2.pdf");
    for (start, end) in [(1, 3), (4, 6), (10, 10), (907, 1024)] {
        assert_eq!(parse_chunk_file_name(&chunk_file_name(start, end)), Some((start, end)));
    }
}

#[test]
fn malformed_chunk_names_are_rejected() {
    assert_eq!(parse_chunk_file_name(""), None);
    assert_eq!(parse_chunk_file_name("chunk_.pdf"), None);
    assert_eq!(parse_chunk_file_name("page_1-3.pdf"), None);
    assert_eq!(parse_chunk_file_name("chunk_1-3.txt"), None);
    assert_eq!(parse_chunk_file_name("chunk_a-3.pdf"), None);
    assert_eq!(parse_chunk_file_name("chunk_1_3.pdf"), None);
    assert_eq!(parse_chunk_file_name("chunk_1-.pdf"), None);
}

#[test]
fn artifacts_live_in_their_stage_directory() {
    let s = split_artifact("/tmp/temp_chunks", pr(4, 6, 1));
    assert_eq!(s.path, "/tmp/temp_chunks/chunk_4-6.pdf");
    assert_eq!(s.range, pr(4, 6, 1));
    assert_eq!(s.stage, ArtifactStage::Split);
    let c = compressed_artifact("/tmp/compressed_chunks", pr(4, 6, 1));
    assert_eq!(c.path, "/tmp/compressed_chunks/chunk_4-6.pdf");
    assert_eq!(c.stage, ArtifactStage::Compressed);
}

#[test]
fn count_invocation_arguments() {
    let args = count_args("/tmp/output.pdf");
    assert_eq!(
        args,
        vec![
            "-q",
            "-dNOSAFER",
            "-dNODISPLAY",
            "-c",
            "(/tmp/output.pdf) (r) file runpdfbegin pdfpagecount = quit",
        ]
    );
}

#[test]
fn split_invocation_arguments() {
    let args = split_args(pr(4, 6, 1), "/tmp/output.pdf", "/tmp/temp_chunks/chunk_4-6.pdf");
    assert_eq!(
        args,
        vec![
            "-sDEVICE=pdfwrite",
            "-dNOPAUSE",
            "-dBATCH",
            "-dSAFER",
            "-dQUIET",
            "-dFirstPage=4",
            "-dLastPage=6",
            "-sOutputFile=/tmp/temp_chunks/chunk_4-6.pdf",
            "/tmp/output.pdf",
        ]
    );
}

#[test]
fn compress_invocation_arguments() {
    let args = compress_args(
        "/tmp/temp_chunks/chunk_4-6.pdf",
        "/tmp/compressed_chunks/chunk_4-6.pdf",
    );
    assert_eq!(
        args,
        vec![
            "-sDEVICE=pdfwrite",
            "-dCompatibilityLevel=1.4",
            "-dPDFSETTINGS=/ebook",
            "-dNOPAUSE",
            "-dQUIET",
            "-dBATCH",
            "-sOutputFile=/tmp/compressed_chunks/chunk_4-6.pdf",
            "/tmp/temp_chunks/chunk_4-6.pdf",
        ]
    );
}

#[test]
fn merge_invocation_arguments_keep_input_order() {
    let inputs = vec![
        "/tmp/compressed_chunks/chunk_1-3.pdf".to_string(),
        "/tmp/compressed_chunks/chunk_4-6.pdf".to_string(),
        "/tmp/compressed_chunks/chunk_7-9.pdf".to_string(),
        "/tmp/compressed_chunks/chunk_10-10.pdf".to_string(),
    ];
    let args = merge_args(&inputs, "/tmp/output.pdf");
    assert_eq!(
        args,
        vec![
            "-dBATCH",
            "-dNOPAUSE",
            "-q",
            "-sDEVICE=pdfwrite",
            "-sOutputFile=/tmp/output.pdf",
            "/tmp/compressed_chunks/chunk_1-3.pdf",
            "/tmp/compressed_chunks/chunk_4-6.pdf",
            "/tmp/compressed_chunks/chunk_7-9.pdf",
            "/tmp/compressed_chunks/chunk_10-10.pdf",
        ]
    );
}

#[test]
fn collect_stage_accepts_full_success() {
    let outcomes = outcomes_for(
        &[pr(1, 3, 0), pr(4, 6, 1)],
        |_| ToolStatus::Succeeded,
    );
    assert_eq!(collect_stage(StageKind::Split, &outcomes), Ok(()));
}

#[test]
fn collect_stage_reports_first_failure() {
    let outcomes = outcomes_for(
        &[pr(1, 3, 0), pr(4, 6, 1), pr(7, 9, 2)],
        |i| if i == 0 { ToolStatus::Succeeded } else { ToolStatus::Failed },
    );
    assert_eq!(
        collect_stage(StageKind::Split, &outcomes),
        Err(PipelineError::SplitFailure { range: pr(4, 6, 1) })
    );
}

#[test]
fn collect_stage_reports_launch_failure_by_stage() {
    let outcomes = outcomes_for(&[pr(1, 3, 0)], |_| ToolStatus::LaunchFailed);
    assert_eq!(
        collect_stage(StageKind::Compress, &outcomes),
        Err(PipelineError::ProcessLaunchFailure { stage: StageKind::Compress })
    );
}

#[test]
fn ten_page_document_with_four_workers() {
    let expected = vec![pr(1, 3, 0), pr(4, 6, 1), pr(7, 9, 2), pr(10, 10, 3)];

    let (state, action) = step(
        4,
        PipelineState::Counting,
        PipelineEvent::CountDone { output: Some("10\n".to_string()) },
    );
    let planned = match &action {
        PipelineAction::RunSplits { ranges } => ranges.clone(),
        other => panic!("expected a split fan-out, got {:?}", other),
    };
    assert_eq!(planned, expected);

    let (state, action) = step(
        4,
        state,
        PipelineEvent::SplitDone { outcomes: outcomes_for(&planned, |_| ToolStatus::Succeeded) },
    );
    let chunks = match &action {
        PipelineAction::RunCompresses { ranges } => ranges.clone(),
        other => panic!("expected a compress fan-out, got {:?}", other),
    };
    assert_eq!(chunks, expected);

    let (state, action) = step(
        4,
        state,
        PipelineEvent::CompressDone { outcomes: outcomes_for(&chunks, |_| ToolStatus::Succeeded) },
    );
    let merge_inputs = match &action {
        PipelineAction::RunMerge { ranges } => ranges.clone(),
        other => panic!("expected the merge invocation, got {:?}", other),
    };
    assert_eq!(merge_inputs, expected);

    let (state, action) = step(4, state, PipelineEvent::MergeDone { status: ToolStatus::Succeeded });
    assert!(matches!(state, PipelineState::Done { merged: true }));
    assert!(matches!(action, PipelineAction::ReturnMerged));
}

#[test]
fn unreadable_page_count_returns_original() {
    let (state, action) = step(
        4,
        PipelineState::Counting,
        PipelineEvent::CountDone { output: Some("GPL Ghostscript: error".to_string()) },
    );
    assert!(matches!(state, PipelineState::Done { merged: false }));
    assert!(matches!(action, PipelineAction::ReturnOriginal));

    let (state, action) = step(
        4,
        PipelineState::Counting,
        PipelineEvent::CountDone { output: None },
    );
    assert!(matches!(state, PipelineState::Done { merged: false }));
    assert!(matches!(action, PipelineAction::ReturnOriginal));
}

#[test]
fn failed_compression_stops_before_merge() {
    let (state, action) = step(
        4,
        PipelineState::Counting,
        PipelineEvent::CountDone { output: Some("10".to_string()) },
    );
    let planned = match &action {
        PipelineAction::RunSplits { ranges } => ranges.clone(),
        other => panic!("expected a split fan-out, got {:?}", other),
    };
    let (state, _) = step(
        4,
        state,
        PipelineEvent::SplitDone { outcomes: outcomes_for(&planned, |_| ToolStatus::Succeeded) },
    );
    let (state, action) = step(
        4,
        state,
        PipelineEvent::CompressDone {
            outcomes: outcomes_for(
                &planned,
                |i| if i == 1 { ToolStatus::Failed } else { ToolStatus::Succeeded },
            ),
        },
    );
    let expected = PipelineError::CompressFailure { range: pr(4, 6, 1) };
    assert!(matches!(state, PipelineState::Failed { error } if error == expected));
    assert!(matches!(action, PipelineAction::ReturnError { error } if error == expected));
}

#[test]
fn failed_split_stops_the_run() {
    let (state, action) = step(
        2,
        PipelineState::Counting,
        PipelineEvent::CountDone { output: Some("4".to_string()) },
    );
    let planned = match &action {
        PipelineAction::RunSplits { ranges } => ranges.clone(),
        other => panic!("expected a split fan-out, got {:?}", other),
    };
    assert_eq!(planned, vec![pr(1, 2, 0), pr(3, 4, 1)]);
    let (state, action) = step(
        2,
        state,
        PipelineEvent::SplitDone {
            outcomes: outcomes_for(
                &planned,
                |i| if i == 0 { ToolStatus::Failed } else { ToolStatus::Succeeded },
            ),
        },
    );
    let expected = PipelineError::SplitFailure { range: pr(1, 2, 0) };
    assert!(matches!(state, PipelineState::Failed { error } if error == expected));
    assert!(matches!(action, PipelineAction::ReturnError { error } if error == expected));
}

#[test]
fn failed_merge_fails_the_run() {
    let (state, _) = step(
        1,
        PipelineState::Counting,
        PipelineEvent::CountDone { output: Some("2".to_string()) },
    );
    let (state, _) = step(
        1,
        state,
        PipelineEvent::SplitDone {
            outcomes: vec![ChunkOutcome { range: pr(1, 2, 0), status: ToolStatus::Succeeded }],
        },
    );
    let (state, _) = step(
        1,
        state,
        PipelineEvent::CompressDone {
            outcomes: vec![ChunkOutcome { range: pr(1, 2, 0), status: ToolStatus::Succeeded }],
        },
    );
    let (state, action) = step(1, state, PipelineEvent::MergeDone { status: ToolStatus::Failed });
    assert!(matches!(state, PipelineState::Failed { error: PipelineError::MergeFailure }));
    assert!(
        matches!(action, PipelineAction::ReturnError { error: PipelineError::MergeFailure })
    );
}
