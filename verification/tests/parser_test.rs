use wts_translation_manager::utils::common::TextType;
use wts_translation_manager::utils::common::get_parse_type_from_multi;
use wts_translation_manager::utils::common::get_parse_type_from_single;
use wts_translation_manager::utils::parser::handle_multi_line;
use wts_translation_manager::utils::parser::handle_multi_line_array;
use wts_translation_manager::utils::parser::handle_multi_line_array_ext;
use wts_translation_manager::utils::parser::handle_single_line;
use wts_translation_manager::utils::parser::handle_single_line_array;
use wts_translation_manager::utils::parser::handle_single_line_array_ext;

fn to_lines(content: &str) -> Vec<String> {
    content.lines().map(|s| s.to_string()).collect()
}

#[test]
fn test_get_parse_type_from_single() {
    assert_eq!(
        get_parse_type_from_single(r#"Tip = "TEST|cffffcc00(Q)|r ""#),
        Some(TextType::SingleLine)
    );
    assert_eq!(
        get_parse_type_from_single(r#"123 = "TEST|cffffcc00(Q)|r ""#),
        None
    );
    assert_eq!(
        get_parse_type_from_single("Researchubertip = [=["),
        Some(TextType::MultiLine)
    );
    assert_eq!(
        get_parse_type_from_single("Tip = [=["),
        Some(TextType::MultiLine)
    );
    assert_eq!(get_parse_type_from_single("Tip = {"), None);
    assert_eq!(get_parse_type_from_single("123 = [=["), None);
}

#[test]
fn test_get_parse_type_from_multi() {
    assert_eq!(
        get_parse_type_from_multi(r#""|c00ffff80TEST|cffffcc00(A)|r","#),
        Some(TextType::SingleLineArray)
    );

    assert_eq!(
        get_parse_type_from_multi(r#""|c00ffff80TEST|cffffcc00(A)|r""#),
        None
    );

    assert_eq!(
        get_parse_type_from_multi(r#""|c00ffff80TEST|cffffcc00(A)|r"#),
        None
    );

    assert_eq!(
        get_parse_type_from_multi(r#"99 = "some text","#),
        Some(TextType::SingleLineArrayExt)
    );
    assert_eq!(get_parse_type_from_multi(r#"9999 = "some text""#), None);

    assert_eq!(
        get_parse_type_from_multi(r#"1 = [=["#),
        Some(TextType::MultiLineArrayExt)
    );
}

#[test]
fn test_handle_single_line() {
    let content = r#"Tip = "마력 전달과 흡수|cffffcc00(Q)|r ""#;
    let result = handle_single_line(&content);
    assert!(!result.is_empty());
    assert_eq!(result.len(), 1);
    assert_eq!(result.first().unwrap(), "마력 전달과 흡수|cffffcc00(Q)|r ");
}

#[test]
fn test_handle_multi_line() {
    let content = r#"|c00ff8080
 ※레벨당 능력
|c0000ff80직선상 적에게 엄청난 데미지를 입히는 붉은 회오리를 방출합니다.
 |cffffcc00레벨 1|r - 정면 1600범위에 1000의 데미지를 입히는 붉은 회오리를 방출합니다.
 |cffffcc00레벨 2|r - 정면 1600범위에 1350의 데미지를 입히는 붉은 회오리를 방출합니다.]=]"#;

    let expected_content = r#"|c00ff8080
 ※레벨당 능력
|c0000ff80직선상 적에게 엄청난 데미지를 입히는 붉은 회오리를 방출합니다.
 |cffffcc00레벨 1|r - 정면 1600범위에 1000의 데미지를 입히는 붉은 회오리를 방출합니다.
 |cffffcc00레벨 2|r - 정면 1600범위에 1350의 데미지를 입히는 붉은 회오리를 방출합니다."#;

    let lines = to_lines(content);
    let mut pos: usize = 0;
    let result = handle_multi_line(&lines, &mut pos);
    assert!(!result.is_empty());
    assert_eq!(result.len(), 1);
    assert_eq!(result.first().unwrap(), expected_content);
}

#[test]
fn test_handle_single_line_array() {
    let content = "Tip = {\n\"|c00ffff80무공|cffffcc00(A)|r\",\n\"|c00ffff80무공|cffffcc00(A)|r\",\n}";
    let lines = to_lines(content);
    let mut pos: usize = 0;
    let result = handle_single_line_array(&lines, &mut pos);
    assert!(!result.is_empty());
    assert_eq!(result.len(), 2);
    assert_eq!(result[0], "|c00ffff80무공|cffffcc00(A)|r");
    assert_eq!(result[1], "|c00ffff80무공|cffffcc00(A)|r");
}

#[test]
fn test_handle_single_line_array_ext() {
    let content = r#"Tip = {
1 = "|c00ffff80천지를 가르는 개벽의 별 [Enuma Elish]|r(|cffffcc00R|r) - |r[|cffffcc00레벨 1|r]",
2 = "|c00ffff80천지를 가르는 개벽의 별 [Enuma Elish]|r(|cffffcc00R|r) - |r[|cffffcc00레벨 2|r]",
3 = "|c00ffff80천지를 가르는 개벽의 별 [Enuma Elish]|r(|cffffcc00R|r) - |r[|cffffcc00레벨 3|r]",
}"#;
    let lines = to_lines(content);
    let mut pos: usize = 0;
    let result = handle_single_line_array_ext(&lines, &mut pos);
    assert!(!result.is_empty());
    assert_eq!(result.len(), 3);
    assert_eq!(result[0], "|c00ffff80천지를 가르는 개벽의 별 [Enuma Elish]|r(|cffffcc00R|r) - |r[|cffffcc00레벨 1|r]");
    assert_eq!(result[1], "|c00ffff80천지를 가르는 개벽의 별 [Enuma Elish]|r(|cffffcc00R|r) - |r[|cffffcc00레벨 2|r]");
    assert_eq!(result[2], "|c00ffff80천지를 가르는 개벽의 별 [Enuma Elish]|r(|cffffcc00R|r) - |r[|cffffcc00레벨 3|r]");
}

#[test]
fn test_handle_multi_line_array() {
    let content = r#"Ubertip = {
[=[
|c0080ffff속성 습득 포인트: 12

|c009E0ADD스테이터스|r
습득조건으로 모든 속성 선행 습득 필요
올스텟 3 증가

|c009E0ADD절대쿨다운|r : 120초(힘/공투자 중 더 높은쪽 적용, 투자 당 1초씩 감소)]=],
[=[
|c0080ffff속성 습득 포인트: 8

|c009E0ADD노템모드 적용|r

|c009E0ADD절대쿨다운|r : 120초(힘/공투자 중 더 높은쪽 적용, 투자 당 1초씩 감소)
|c00ff8080노템모드 패널티|r : 반사데미지50% 감소,대마력증가량 5%감소]=],
}"#;

    let result1_content = r#"|c0080ffff속성 습득 포인트: 12

|c009E0ADD스테이터스|r
습득조건으로 모든 속성 선행 습득 필요
올스텟 3 증가

|c009E0ADD절대쿨다운|r : 120초(힘/공투자 중 더 높은쪽 적용, 투자 당 1초씩 감소)"#;

    let result2_content = r#"|c0080ffff속성 습득 포인트: 8

|c009E0ADD노템모드 적용|r

|c009E0ADD절대쿨다운|r : 120초(힘/공투자 중 더 높은쪽 적용, 투자 당 1초씩 감소)
|c00ff8080노템모드 패널티|r : 반사데미지50% 감소,대마력증가량 5%감소"#;

    let lines = to_lines(content);
    let mut pos: usize = 1;
    let result = handle_multi_line_array(&lines, &mut pos);
    assert!(!result.is_empty());
    assert_eq!(result.len(), 2);
    assert_eq!(result[0], result1_content);
    assert_eq!(result[1], result2_content);
}

#[test]
fn test_handle_multi_line_array_ext() {
    let content = r#"Ubertip = {
1 = [=[
|c009E0ADD스킬종류|r : 대계보구
|c009E0ADD데미지|r : 1000
|c009E0ADD직선범위|r : 1600
|c009E0ADD발동시간|r : 3초
|c009E0ADD대상|r : 범위 내의 적 전체.
|c009E0ADD쿨다운|r : 45초

괴리검 에아에 의한 공간 절단. 압축되어서 서로 마찰하는 풍압의 단층은, 의사적인 시공단층이 되어 적대하는 모든 것을 분쇄합니다.]=],
2 = [=[
|c009E0ADD스킬종류|r : 대계보구
|c009E0ADD데미지|r : 1350
|c009E0ADD직선범위|r : 1600
|c009E0ADD발동시간|r : 3초
|c009E0ADD대상|r : 범위 내의 적 전체.
|c009E0ADD쿨다운|r : 45초

괴리검 에아에 의한 공간 절단. 압축되어서 서로 마찰하는 풍압의 단층은, 의사적인 시공단층이 되어 적대하는 모든 것을 분쇄합니다.]=],
}"#;
    let result1_content = r#"|c009E0ADD스킬종류|r : 대계보구
|c009E0ADD데미지|r : 1000
|c009E0ADD직선범위|r : 1600
|c009E0ADD발동시간|r : 3초
|c009E0ADD대상|r : 범위 내의 적 전체.
|c009E0ADD쿨다운|r : 45초

괴리검 에아에 의한 공간 절단. 압축되어서 서로 마찰하는 풍압의 단층은, 의사적인 시공단층이 되어 적대하는 모든 것을 분쇄합니다."#;

    let result2_content = r#"|c009E0ADD스킬종류|r : 대계보구
|c009E0ADD데미지|r : 1350
|c009E0ADD직선범위|r : 1600
|c009E0ADD발동시간|r : 3초
|c009E0ADD대상|r : 범위 내의 적 전체.
|c009E0ADD쿨다운|r : 45초

괴리검 에아에 의한 공간 절단. 압축되어서 서로 마찰하는 풍압의 단층은, 의사적인 시공단층이 되어 적대하는 모든 것을 분쇄합니다."#;

    let lines = to_lines(content);
    let mut pos: usize = 1;
    let result = handle_multi_line_array_ext(&lines, &mut pos);
    assert!(!result.is_empty());
    assert_eq!(result.len(), 2);
    assert_eq!(result[0], result1_content);
    assert_eq!(result[1], result2_content);
}
