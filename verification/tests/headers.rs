use legacy_doc::{
    DecodedText, DocError, DocLimits, HeaderFooterKind, HeaderFooterLink, HeaderFooterTable, Story, StoryKind,
};

fn header_story(cp_start: u32, utf16: Vec<u16>) -> Story {
    let cp_end = cp_start + utf16.len() as u32;
    Story {
        kind: StoryKind::Headers,
        cp_start,
        cp_end,
        content: DecodedText { cp_start, cp_end, text: String::from_utf16_lossy(&utf16), utf16 },
    }
}

fn plc_bytes(cps: &[u32]) -> Vec<u8> {
    cps.iter().flat_map(|cp| cp.to_le_bytes()).collect::<Vec<_>>()
}

#[test]
fn strips_guards_and_inherits_empty_second_section_story() {
    let utf16 = vec![u16::from(b'H'), 0x000D, 0x000D, 0x000D];
    let story = Story {
        kind: StoryKind::Headers,
        cp_start: 100,
        cp_end: 104,
        content: DecodedText { cp_start: 100, cp_end: 104, text: String::from_utf16_lossy(&utf16), utf16 },
    };
    let mut cps = [0_u32; 20];
    cps[8..19].fill(3);
    let plc = cps.iter().flat_map(|cp| cp.to_le_bytes()).collect::<Vec<_>>();
    let table = HeaderFooterTable::parse_plc(&plc, &story, 2, DocLimits::default()).unwrap();
    assert_eq!(table.stories()[7].cp_content_end, 102);
    assert_eq!(table.sections()[0].odd_header, Some(HeaderFooterLink { story_index: 7, inherited: false }));
    assert_eq!(table.sections()[1].odd_header, Some(HeaderFooterLink { story_index: 7, inherited: true }));
}

#[test]
fn assigns_roles_and_sections_to_stories() {
    let story = header_story(10, vec![u16::from(b'H'), 0x000D, 0x000D, 0x000D]);
    let mut cps = [0_u32; 14];
    cps[8..13].fill(3);
    let table = HeaderFooterTable::parse_plc(&plc_bytes(&cps), &story, 1, DocLimits::default()).unwrap();
    assert_eq!(table.stories().len(), 12);
    assert_eq!(table.stories()[0].kind, HeaderFooterKind::FootnoteSeparator);
    assert_eq!(table.stories()[0].section_index, None);
    assert_eq!(table.stories()[5].kind, HeaderFooterKind::EndnoteContinuationNotice);
    assert_eq!(table.stories()[6].kind, HeaderFooterKind::EvenHeader);
    assert_eq!(table.stories()[7].kind, HeaderFooterKind::OddHeader);
    assert_eq!(table.stories()[7].section_index, Some(0));
    assert_eq!(table.stories()[11].kind, HeaderFooterKind::FirstFooter);
    assert_eq!(table.stories()[7].cp_start, 10);
    assert_eq!(table.stories()[7].cp_end, 13);
    assert!(table.stories()[6].is_empty());
    assert_eq!(table.stories()[6].cp_content_end, table.stories()[6].cp_end);
    assert_eq!(table.sections().len(), 1);
    assert_eq!(table.sections()[0].section_index, 0);
    assert_eq!(table.sections()[0].even_header, None);
    assert_eq!(table.sections()[0].first_footer, None);
}

#[test]
fn a_later_non_empty_story_replaces_the_inherited_source() {
    // Section 0 odd header is [0, 3), section 1 odd header is empty, section 2
    // odd header is [3, 6); the final CP after the terminal one is ignored.
    let cr = 0x000D;
    let story = header_story(0, vec![u16::from(b'A'), cr, cr, u16::from(b'B'), cr, cr, cr]);
    let mut cps = vec![0_u32; 6 + 18 + 2];
    for cp in cps.iter_mut().skip(8).take(12) {
        *cp = 3;
    }
    for cp in cps.iter_mut().skip(20) {
        *cp = 6;
    }
    let table = HeaderFooterTable::parse_plc(&plc_bytes(&cps), &story, 3, DocLimits::default()).unwrap();
    assert_eq!(table.sections()[0].odd_header, Some(HeaderFooterLink { story_index: 7, inherited: false }));
    assert_eq!(table.sections()[1].odd_header, Some(HeaderFooterLink { story_index: 7, inherited: true }));
    assert_eq!(table.sections()[2].odd_header, Some(HeaderFooterLink { story_index: 19, inherited: false }));
    assert_eq!(table.sections()[2].even_header, None);
    assert_eq!(table.stories()[19].cp_content_end, 5);
}

#[test]
fn rejects_a_story_count_that_does_not_match_the_sections() {
    let story = header_story(0, vec![0x000D]);
    let cps = [0_u32; 14];
    let err = HeaderFooterTable::parse_plc(&plc_bytes(&cps), &story, 2, DocLimits::default()).unwrap_err();
    assert!(matches!(err, DocError::InvalidHeaderFooter(_)));
}

#[test]
fn rejects_a_plc_whose_length_is_not_a_cp_array() {
    let story = header_story(0, vec![0x000D]);
    let err = HeaderFooterTable::parse_plc(&[0, 0, 0, 0, 0], &story, 0, DocLimits::default()).unwrap_err();
    assert!(matches!(err, DocError::InvalidHeaderFooter(_)));
}

#[test]
fn rejects_a_header_without_a_complete_paragraph_before_its_guard() {
    // Section 0 odd header [0, 2) holds 'H' and the guard, but no paragraph mark
    // before the guard.
    let story = header_story(0, vec![u16::from(b'H'), 0x000D, 0x000D]);
    let mut cps = [0_u32; 14];
    cps[8..13].fill(2);
    let err = HeaderFooterTable::parse_plc(&plc_bytes(&cps), &story, 1, DocLimits::default()).unwrap_err();
    assert!(matches!(err, DocError::InvalidHeaderFooter(_)));
}

#[test]
fn rejects_a_terminal_cp_that_misses_the_story_end() {
    let story = header_story(0, vec![u16::from(b'H'), 0x000D, 0x000D, 0x000D, 0x000D]);
    let mut cps = [0_u32; 14];
    cps[8..13].fill(3);
    let err = HeaderFooterTable::parse_plc(&plc_bytes(&cps), &story, 1, DocLimits::default()).unwrap_err();
    assert!(matches!(err, DocError::InvalidHeaderFooter(_)));
}

#[test]
fn enforces_the_header_footer_story_limit() {
    let story = header_story(10, vec![u16::from(b'H'), 0x000D, 0x000D, 0x000D]);
    let mut cps = [0_u32; 14];
    cps[8..13].fill(3);
    let limits = DocLimits { max_header_footer_stories: 11, ..DocLimits::default() };
    let err = HeaderFooterTable::parse_plc(&plc_bytes(&cps), &story, 1, limits).unwrap_err();
    assert!(matches!(err, DocError::ResourceLimit { resource: "header-footer-story", actual: 12, limit: 11 }));
}

#[test]
fn rejects_negative_and_decreasing_boundaries() {
    let story = header_story(0, vec![u16::from(b'H'), 0x000D, 0x000D, 0x000D]);
    let mut cps = [0_u32; 14];
    cps[8..13].fill(3);
    cps[3] = u32::MAX;
    let err = HeaderFooterTable::parse_plc(&plc_bytes(&cps), &story, 1, DocLimits::default()).unwrap_err();
    assert!(matches!(err, DocError::InvalidHeaderFooter(_)));
    let mut cps = [0_u32; 14];
    cps[8..13].fill(3);
    cps[7] = 3;
    cps[8] = 2;
    let err = HeaderFooterTable::parse_plc(&plc_bytes(&cps), &story, 1, DocLimits::default()).unwrap_err();
    assert!(matches!(err, DocError::InvalidHeaderFooter(_)));
}
