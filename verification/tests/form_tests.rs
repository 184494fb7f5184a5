use file_search::form::FileSearchApp;
use file_search::text::dec_string;

fn fresh_form() -> FileSearchApp {
    FileSearchApp {
        search_name: String::new(),
        search_path: String::new(),
        search_hidden: false,
        file_only: false,
        strict_mode: false,
        case_miss: false,
        file_suffix: String::new(),
        search_results: Vec::new(),
        status_message: String::new(),
        message: None,
    }
}

#[test]
fn empty_name_is_rejected_with_a_dialog() {
    let mut form = fresh_form();
    let args = form.on_search_clicked();
    assert!(args.is_none());
    assert_eq!(form.message.as_deref(), Some("搜索关键字不能为空"));
    assert_eq!(form.status_message, "");
}

#[test]
fn search_click_builds_arguments_from_the_fields() {
    let mut form = fresh_form();
    form.search_name = "foo".to_string();
    form.search_path = "root".to_string();
    form.search_hidden = true;
    form.file_only = true;
    form.strict_mode = true;
    form.case_miss = true;
    form.file_suffix = "txt, md".to_string();

    let args = form.on_search_clicked().expect("a non-empty name passes");
    assert_eq!(args.name, "foo");
    assert_eq!(args.target, "root");
    assert!(args.search_hidden);
    assert!(args.file_only);
    assert!(args.strict_mode);
    assert!(args.case_miss);
    assert_eq!(args.suffix, "txt, md");
    assert_eq!(form.status_message, "正在搜索...");
    assert!(form.message.is_none());
}

#[test]
fn results_set_the_status_line() {
    let mut form = fresh_form();
    form.apply_results(Vec::new());
    assert_eq!(form.status_message, "未找到匹配的文件！");
    assert!(form.search_results.is_empty());

    form.apply_results(vec!["a".to_string(), "b".to_string(), "c".to_string()]);
    assert_eq!(form.status_message, "找到 3 个文件！");
    assert_eq!(form.search_results.len(), 3);

    form.apply_results((0..12).map(|i| i.to_string()).collect());
    assert_eq!(form.status_message, "找到 12 个文件！");
}

#[test]
fn dismissing_clears_the_dialog() {
    let mut form = fresh_form();
    form.on_search_clicked();
    assert!(form.message.is_some());
    form.dismiss_message();
    assert!(form.message.is_none());
}

#[test]
fn decimal_formatting() {
    assert_eq!(dec_string(0), "0");
    assert_eq!(dec_string(7), "7");
    assert_eq!(dec_string(10), "10");
    assert_eq!(dec_string(907), "907");
    assert_eq!(dec_string(123456), "123456");
}
