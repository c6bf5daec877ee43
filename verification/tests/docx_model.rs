use legacy_doc::docx_model::{
    BorderStyle, ColumnLayout, PageSetup, ParagraphAlignment, SectionBreakType, UnderlineStyle, brc80, cell_border,
    column_layout, page_setup, paragraph_alignment, section_break, table_border, underline_style,
};
use legacy_doc::sections::{PageOrientation, SectionGeometry};

#[test]
fn page_setup_takes_stored_measures_and_office_defaults() {
    let plain = page_setup(&SectionGeometry::default());
    assert_eq!(
        plain,
        PageSetup {
            width_twips: 12240,
            height_twips: 15840,
            margin_top_twips: 1440,
            margin_bottom_twips: 1440,
            margin_left_twips: 1800,
            margin_right_twips: 1800,
            landscape: false,
            header_distance_twips: 720,
            footer_distance_twips: 720,
        }
    );
    let geometry = SectionGeometry {
        page_width_twips: Some(15840),
        page_height_twips: Some(12240),
        margin_top_twips: Some(-1000),
        margin_bottom_twips: Some(i16::MIN),
        margin_left_twips: Some(720),
        orientation: Some(PageOrientation::Landscape),
        footer_distance_twips: Some(360),
        ..SectionGeometry::default()
    };
    let page = page_setup(&geometry);
    assert_eq!(page.width_twips, 15840);
    assert_eq!(page.height_twips, 12240);
    assert_eq!(page.margin_top_twips, 1000);
    assert_eq!(page.margin_bottom_twips, 32768);
    assert_eq!(page.margin_left_twips, 720);
    assert_eq!(page.margin_right_twips, 1800);
    assert!(page.landscape);
    assert_eq!(page.header_distance_twips, 720);
    assert_eq!(page.footer_distance_twips, 360);
}

#[test]
fn columns_only_for_more_than_one() {
    let one = SectionGeometry { column_count: Some(1), ..SectionGeometry::default() };
    assert_eq!(column_layout(&one), None);
    assert_eq!(column_layout(&SectionGeometry::default()), None);
    let two = SectionGeometry {
        column_count: Some(2),
        column_spacing_twips: Some(425),
        line_between_columns: Some(true),
        ..SectionGeometry::default()
    };
    assert_eq!(column_layout(&two), Some(ColumnLayout { count: 2, space_twips: Some(425), separator: true }));
    let bare = SectionGeometry { column_count: Some(3), ..SectionGeometry::default() };
    assert_eq!(column_layout(&bare), Some(ColumnLayout { count: 3, space_twips: None, separator: false }));
}

#[test]
fn maps_break_alignment_and_underline_codes() {
    assert_eq!(section_break(Some(2)), SectionBreakType::NextPage);
    assert_eq!(section_break(Some(3)), SectionBreakType::EvenPage);
    assert_eq!(section_break(Some(4)), SectionBreakType::OddPage);
    assert_eq!(section_break(Some(0)), SectionBreakType::Continuous);
    assert_eq!(section_break(None), SectionBreakType::Continuous);
    assert_eq!(paragraph_alignment(Some(7)), Some(ParagraphAlignment::Left));
    assert_eq!(paragraph_alignment(Some(8)), Some(ParagraphAlignment::Center));
    assert_eq!(paragraph_alignment(Some(2)), Some(ParagraphAlignment::Right));
    assert_eq!(paragraph_alignment(Some(5)), Some(ParagraphAlignment::Justify));
    assert_eq!(paragraph_alignment(Some(10)), None);
    assert_eq!(paragraph_alignment(None), None);
    assert_eq!(underline_style(0), None);
    assert_eq!(underline_style(1), Some(UnderlineStyle::Single));
    assert_eq!(underline_style(2), Some(UnderlineStyle::Words));
    assert_eq!(underline_style(20), Some(UnderlineStyle::Double));
    assert_eq!(underline_style(25), Some(UnderlineStyle::Dash));
    assert_eq!(underline_style(43), Some(UnderlineStyle::Wave));
    assert_eq!(underline_style(99), Some(UnderlineStyle::Single));
}

#[test]
fn reads_word_97_border_codes() {
    assert!(brc80([0xFF; 4]).is_none());
    assert!(brc80([4, 0, 1, 0]).is_none());
    let double = brc80([0, 3, 6, 0]).unwrap();
    assert_eq!(double.style, BorderStyle::Double);
    assert_eq!(double.color, Some([255, 0, 0]));
    assert_eq!(double.size, Some(1));
    assert_eq!(double.space, None);
    let dotted = brc80([8, 7, 0, 0]).unwrap();
    assert_eq!(dotted.style, BorderStyle::Dotted);
    assert_eq!(dotted.color, None);
    assert_eq!(dotted.size, Some(8));
    assert_eq!(brc80([2, 12, 0, 0]).unwrap().style, BorderStyle::Dashed);
    assert_eq!(brc80([2, 1, 0, 0]).unwrap().style, BorderStyle::Single);

    assert!(cell_border(&[[0xFF; 4]; 4]).is_none());
    let cell = cell_border(&[[0xFF; 4], [2, 1, 0, 0], [0xFF; 4], [0xFF; 4]]).unwrap();
    assert!(cell.top.is_none());
    assert_eq!(cell.left.unwrap().size, Some(2));
    assert!(cell.bottom.is_none() && cell.right.is_none() && cell.inside_h.is_none() && cell.inside_v.is_none());

    assert!(table_border(&[[0, 0, 0, 0]; 6]).is_none());
    let table = table_border(&[[0xFF; 4], [0xFF; 4], [0xFF; 4], [0xFF; 4], [0xFF; 4], [4, 1, 2, 0]]).unwrap();
    assert_eq!(table.inside_v.unwrap().color, Some([0, 0, 255]));
    assert!(table.top.is_none() && table.inside_h.is_none());
}
