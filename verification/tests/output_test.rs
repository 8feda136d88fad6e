use wts_translation_manager::utils::common::FieldType;
use wts_translation_manager::utils::export::output_multi_line_array;
use wts_translation_manager::utils::export::output_multi_line_array_ext;
use wts_translation_manager::utils::export::output_single_line_array;
use wts_translation_manager::utils::export::output_single_line_array_ext;
use wts_translation_manager::utils::export::output_single_or_multi_line;

#[test]
fn test_output_single_line() {
    let field_name = FieldType::Tip.to_str();
    let sample = String::from("마력 전달과 흡수|cffffcc00(Q)|r ");
    let value = vec![sample];
    if let Ok(result) = output_single_or_multi_line(field_name, &value) {
        assert!(!result.is_empty());
        assert_eq!(result, r#"Tip = "마력 전달과 흡수|cffffcc00(Q)|r ""#);
    } else {
        panic!("Something went wrong");
    }
}

#[test]
fn test_output_multi_line() {
    let field_name = FieldType::Researchubertip.to_str();
    let sample = String::from(
        r#"|c00ff8080
 ※레벨당 능력
|c0000ff80직선상 적에게 엄청난 데미지를 입히는 붉은 회오리를 방출합니다.
 |cffffcc00레벨 1|r - 정면 1600범위에 1000의 데미지를 입히는 붉은 회오리를 방출합니다.
 |cffffcc00레벨 2|r - 정면 1600범위에 1350의 데미지를 입히는 붉은 회오리를 방출합니다.
 |cffffcc00레벨 3|r - 정면 1600범위에 1700의 데미지를 입히는 붉은 회오리를 방출합니다.
 |cffffcc00레벨 4|r - 정면 1600범위에 2050의 데미지를 입히는 붉은 회오리를 방출합니다.
 |cffffcc00레벨 5|r - 정면 1600범위에 2400의 데미지를 입히는 붉은 회오리를 방출합니다."#,
    );
    let value = vec![sample];
    if let Ok(result) = output_single_or_multi_line(field_name, &value) {
        assert!(!result.is_empty());
        assert_eq!(
            result,
            r#"Researchubertip = [=[
|c00ff8080
 ※레벨당 능력
|c0000ff80직선상 적에게 엄청난 데미지를 입히는 붉은 회오리를 방출합니다.
 |cffffcc00레벨 1|r - 정면 1600범위에 1000의 데미지를 입히는 붉은 회오리를 방출합니다.
 |cffffcc00레벨 2|r - 정면 1600범위에 1350의 데미지를 입히는 붉은 회오리를 방출합니다.
 |cffffcc00레벨 3|r - 정면 1600범위에 1700의 데미지를 입히는 붉은 회오리를 방출합니다.
 |cffffcc00레벨 4|r - 정면 1600범위에 2050의 데미지를 입히는 붉은 회오리를 방출합니다.
 |cffffcc00레벨 5|r - 정면 1600범위에 2400의 데미지를 입히는 붉은 회오리를 방출합니다.]=]"#
        );
    } else {
        panic!("Something went wrong");
    }
}

#[test]
fn test_output_single_line_array() {
    let field_name = FieldType::Tip.to_str();
    let value = vec![
        "|c00ffff80무공|cffffcc00(A1)|r",
        "|c00ffff80무공|cffffcc00(A2)|r",
    ];
    let value: Vec<String> = value.iter().map(|s| s.to_string()).collect();
    if let Ok(result) = output_single_line_array(field_name, &value) {
        assert!(!result.is_empty());
        assert_eq!(
            result,
            "Tip = {\n\"|c00ffff80무공|cffffcc00(A1)|r\",\n\"|c00ffff80무공|cffffcc00(A2)|r\",\n}"
        );
    } else {
        panic!("Something went wrong");
    }
}

#[test]
fn test_output_single_line_array_ext() {
    let field_name = FieldType::Tip.to_str();
    let value = vec![
        "|c00ffff80천지를 가르는 개벽의 별 [Enuma Elish]|r(|cffffcc00R|r) - |r[|cffffcc00레벨 1|r]",
        "|c00ffff80천지를 가르는 개벽의 별 [Enuma Elish]|r(|cffffcc00R|r) - |r[|cffffcc00레벨 2|r]",
    ];
    let value: Vec<String> = value.iter().map(|s| s.to_string()).collect();
    if let Ok(result) = output_single_line_array_ext(field_name, &value) {
        assert!(!result.is_empty());
        assert_eq!(
            result,
            r#"Tip = {
1 = "|c00ffff80천지를 가르는 개벽의 별 [Enuma Elish]|r(|cffffcc00R|r) - |r[|cffffcc00레벨 1|r]",
2 = "|c00ffff80천지를 가르는 개벽의 별 [Enuma Elish]|r(|cffffcc00R|r) - |r[|cffffcc00레벨 2|r]",
}"#
        );
    } else {
        panic!("Not a multi line");
    }
}

#[test]
fn test_output_multi_line_array() {
    let field_name = FieldType::Ubertip.to_str();
    let value = vec![
        "|c0080ffff속성 습득 포인트: 12\n\n|c009E0ADD절대쿨다운|r : 120초(힘/공투자 중 더 높은쪽 적용, 투자 당 1초씩 감소)",
        "|c0080ffff속성 습득 포인트: 8\n\n|c00ff8080노템모드 패널티|r : 반사데미지50% 감소,대마력증가량 5%감소",
    ];
    let value: Vec<String> = value.iter().map(|s| s.to_string()).collect();
    if let Ok(result) = output_multi_line_array(field_name, &value) {
        assert!(!result.is_empty());
        assert_eq!(
            result,
            "Ubertip = {\n[=[\n|c0080ffff속성 습득 포인트: 12\n\n|c009E0ADD절대쿨다운|r : 120초(힘/공투자 중 더 높은쪽 적용, 투자 당 1초씩 감소)]=],\n[=[\n|c0080ffff속성 습득 포인트: 8\n\n|c00ff8080노템모드 패널티|r : 반사데미지50% 감소,대마력증가량 5%감소]=],\n}"
        );
    } else {
        panic!("Not a multi line");
    }
}

#[test]
fn test_output_multi_line_array_ext() {
    let field_name = FieldType::Ubertip.to_str();
    let value = vec![
        "|c009E0ADD데미지|r : 1000\n\n괴리검 에아에 의한 공간 절단. 압축되어서 서로 마찰하는 풍압의 단층은, 의사적인 시공단층이 되어 적대하는 모든 것을 분쇄합니다.",
        "|c009E0ADD데미지|r : 1350\n\n괴리검 에아에 의한 공간 절단. 압축되어서 서로 마찰하는 풍압의 단층은, 의사적인 시공단층이 되어 적대하는 모든 것을 분쇄합니다.",
    ];
    let value: Vec<String> = value.iter().map(|s| s.to_string()).collect();
    if let Ok(result) = output_multi_line_array_ext(field_name, &value) {
        assert!(!result.is_empty());
        assert_eq!(
            result,
            "Ubertip = {\n1 = [=[\n|c009E0ADD데미지|r : 1000\n\n괴리검 에아에 의한 공간 절단. 압축되어서 서로 마찰하는 풍압의 단층은, 의사적인 시공단층이 되어 적대하는 모든 것을 분쇄합니다.]=],\n2 = [=[\n|c009E0ADD데미지|r : 1350\n\n괴리검 에아에 의한 공간 절단. 압축되어서 서로 마찰하는 풍압의 단층은, 의사적인 시공단층이 되어 적대하는 모든 것을 분쇄합니다.]=],\n}"
        );
    } else {
        panic!("Not a multi line");
    }
}

#[test]
fn test_output_single_line_rejects_multiple_values() {
    let field_name = FieldType::Tip.to_str();
    let value = vec!["a".to_string(), "b".to_string()];
    assert!(output_single_or_multi_line(field_name, &value).is_err());
    assert!(output_single_or_multi_line(field_name, &Vec::new()).is_err());
}

#[test]
fn test_output_single_line_array_ext_two_digit_indices() {
    let field_name = FieldType::Tip.to_str();
    let value: Vec<String> = (1..=11).map(|i| format!("v{}", i)).collect();
    let result = output_single_line_array_ext(field_name, &value).expect("render failed");
    assert!(result.contains("10 = \"v10\",\n"));
    assert!(result.contains("11 = \"v11\",\n"));
    assert!(result.starts_with("Tip = {\n1 = \"v1\",\n"));
}
