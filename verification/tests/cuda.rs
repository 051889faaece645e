use wg_vanity::cuda::{
    flatten_inputs, literal_gpu_pattern, plan_batch, plan_inputs, plan_pattern_batch, read_flags,
    text_settings, visible_devices, AfterLaunch, BatchPlan, BatchResult, Launch, TextSettings,
};
use wg_vanity::{GpuPattern, PatternKind, SearchPattern};

#[test]
fn batches_are_split_into_blocks() {
    assert_eq!(plan_batch(0, 10, 1), Some(Launch { blocks: 1, start: 0, end: 10 }));
    assert_eq!(plan_batch(3, 44, 256), Some(Launch { blocks: 1, start: 3, end: 44 }));
    assert_eq!(plan_batch(0, 10, 257), Some(Launch { blocks: 2, start: 0, end: 10 }));
    assert_eq!(plan_batch(7, 7, 1 << 20), Some(Launch { blocks: 4096, start: 7, end: 7 }));
    let largest = u64::from(u32::MAX) * 256;
    assert_eq!(plan_batch(0, 10, largest), Some(Launch { blocks: u32::MAX, start: 0, end: 10 }));
}

#[test]
fn unsupported_batches_are_not_launched() {
    assert_eq!(plan_batch(0, 45, 1), None);
    assert_eq!(plan_batch(11, 10, 1), None);
    assert_eq!(plan_batch(0, 10, 0), None);
    assert_eq!(plan_batch(0, 10, u64::from(u32::MAX) * 256 + 1), None);
    assert_eq!(plan_batch(0, 10, u64::MAX), None);
}

#[test]
fn literals_are_padded_and_lowered() {
    let pattern = literal_gpu_pattern("DaVe");
    match plan_pattern_batch(&pattern, 0, 10, 1000) {
        BatchPlan::Text(text) => {
            let mut expected = [0u8; 44];
            expected[..4].copy_from_slice(b"dave");
            assert_eq!(text.prefix, expected);
            assert_eq!(text.settings, TextSettings { len: 4, mode: 0, case_sensitive: 0 });
            assert_eq!(text.launch, Launch { blocks: 4, start: 0, end: 10 });
        }
        other => panic!("{other:?}"),
    }
}

#[test]
fn globs_have_their_own_mode() {
    let pattern = SearchPattern::new("Da*", PatternKind::Glob, true).unwrap();
    let prepared = pattern.gpu_pattern().unwrap();
    assert_eq!(
        text_settings(&prepared),
        Some(TextSettings { len: 3, mode: 1, case_sensitive: 1 })
    );
    assert!(matches!(plan_pattern_batch(&prepared, 0, 44, 1), BatchPlan::Text(_)));
}

#[test]
fn text_that_cannot_match_is_skipped() {
    let empty = literal_gpu_pattern("");
    assert!(matches!(plan_pattern_batch(&empty, 0, 10, 1), BatchPlan::Skip));
    let long = GpuPattern::Literal { bytes: vec![b'a'; 45], case_sensitive: false };
    assert!(matches!(plan_pattern_batch(&long, 0, 10, 1), BatchPlan::Skip));
    let fitting = GpuPattern::Literal { bytes: vec![b'a'; 44], case_sensitive: false };
    assert!(matches!(plan_pattern_batch(&fitting, 0, 10, 1), BatchPlan::Text(_)));
    assert!(matches!(plan_pattern_batch(&fitting, 0, 45, 1), BatchPlan::Skip));
    assert!(matches!(plan_pattern_batch(&fitting, 0, 10, 0), BatchPlan::Skip));
}

#[test]
fn tables_are_uploaded() {
    let pattern = SearchPattern::new("da.e", PatternKind::Regex, true).unwrap();
    let prepared = pattern.gpu_pattern().unwrap();
    assert_eq!(text_settings(&prepared), None);
    assert!(matches!(plan_pattern_batch(&prepared, 9, 5, 0), BatchPlan::UploadTable));
}

#[test]
fn results_follow_the_found_flag() {
    assert!(matches!(BatchResult::after_launch(5, 0), AfterLaunch::ReadKeys));
    assert!(matches!(BatchResult::after_launch(5, 17), AfterLaunch::ReadKeys));
    match BatchResult::after_launch(5, -1) {
        AfterLaunch::Finished(result) => {
            assert_eq!(result.attempts, 5);
            assert_eq!(result.candidate, None);
        }
        other => panic!("{other:?}"),
    }
    let matched = BatchResult::matched(9, &[0; 32], &[255; 32]);
    assert_eq!(matched.attempts, 9);
    assert_eq!(
        matched.candidate,
        Some((
            "AAAAAAAAAAAAAAAAAAAAAAAAAAAAAAAAAAAAAAAAAAA=".to_string(),
            "//////////////////////////////////////////8=".to_string(),
        ))
    );
    let empty = BatchResult::empty();
    assert_eq!(empty.attempts, 0);
    assert_eq!(empty.candidate, None);
}

#[test]
fn devices_are_never_negative() {
    assert_eq!(visible_devices(-1), 0);
    assert_eq!(visible_devices(0), 0);
    assert_eq!(visible_devices(8), 8);
}

#[test]
fn inputs_are_planned_and_flattened() {
    let plan = plan_inputs(600, 2, 44).unwrap();
    assert_eq!(plan.count, 600);
    assert_eq!(plan.launch, Launch { blocks: 3, start: 2, end: 44 });
    assert_eq!(plan_inputs(0, 0, 44), None);
    assert_eq!(plan_inputs(1, 0, 45), None);
    assert_eq!(plan_inputs(1, 5, 4), None);
    let mut second = [2u8; 44];
    second[43] = 3;
    let flat = flatten_inputs(&[[1u8; 44], second]);
    assert_eq!(flat.len(), 88);
    assert_eq!(flat[43], 1);
    assert_eq!(flat[44], 2);
    assert_eq!(flat[87], 3);
    assert_eq!(read_flags(&[0, 1, 255, 0]), [false, true, true, false]);
}
