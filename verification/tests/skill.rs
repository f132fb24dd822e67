use phi_kernel_tools::skill::detail::skill_detail_reply;
use phi_kernel_tools::skill::list::{list_skills_summary, skills_in_category, SkillInfo};

fn skill(name: &str, desc: &str, category: &str, has_plan: bool) -> SkillInfo {
    SkillInfo {
        name: name.to_string(),
        description: desc.to_string(),
        category: category.to_string(),
        version: "1.0".to_string(),
        tags: Vec::new(),
        has_plan,
        param_count: 0,
    }
}

#[test]
fn test_list_skills_empty() {
    assert!(list_skills_summary(&Vec::new(), None).contains("没有注册任何技能"));
}

#[test]
fn test_list_skills_with_skills() {
    let skills = vec![skill("deploy", "Deploy the app", "ops", true), skill("review", "Review code", "dev", false)];
    let summary = list_skills_summary(&skills, None);
    assert_eq!(
        summary,
        "可用技能 (2 个):\n- **deploy** [模板]: Deploy the app\n- **review**: Review code"
    );
    assert_eq!(skills_in_category(&skills, None), vec![0, 1]);
}

#[test]
fn test_list_skills_category_filter() {
    let skills = vec![skill("deploy", "Deploy", "ops", false), skill("review", "Review", "dev", false)];
    assert!(list_skills_summary(&skills, Some("nonexistent")).contains("没有找到"));
    assert_eq!(skills_in_category(&skills, Some("dev")), vec![1]);
    assert_eq!(list_skills_summary(&skills, Some("dev")), "可用技能 (1 个):\n- **review**: Review");
}

fn names() -> (Vec<String>, Vec<String>) {
    (
        vec!["deploy".to_string(), "test".to_string()],
        vec!["# Deploy\ndeploy the application".to_string(), "# Test".to_string()],
    )
}

#[test]
fn test_call_returns_detail_for_known_skill() {
    let (n, d) = names();
    let r = skill_detail_reply(&n, &d, "deploy");
    assert!(r.contains("# Deploy"));
    assert!(r.contains("deploy the application"));
}

#[test]
fn test_call_returns_error_for_unknown_skill() {
    let (n, d) = names();
    assert_eq!(
        skill_detail_reply(&n, &d, "nonexistent"),
        "Skill 'nonexistent' not found. Available Skills: deploy, test"
    );
}

#[test]
fn test_call_with_empty_name_lists_available() {
    let (n, d) = names();
    assert_eq!(skill_detail_reply(&n, &d, ""), "Please provide a Skill name. Available Skills: deploy, test");
}

#[test]
fn test_call_with_empty_skills_graceful() {
    assert_eq!(skill_detail_reply(&Vec::new(), &Vec::new(), ""), "Please provide a Skill name. Available Skills: ");
}
