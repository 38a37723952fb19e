use linked_list::interactive::HandlerErr;
use linked_list::interactive::Interactor;
use linked_list::interactive::Management;
use linked_list::interactive::to_words;

struct MockManager {
    cmd: Option<String>,
    args: Option<Vec<String>>,
    promission: bool,
    calls: usize,
}

impl Management for MockManager {
    fn assign_job(&mut self, cmd: &String, args: &Vec<String>) -> bool {
        self.cmd = Some(cmd.clone());
        self.args = Some(args.clone());
        self.calls += 1;
        self.promission
    }

    fn gen_graph(&self) -> String {
        String::from("")
    }
}

impl MockManager {
    fn new() -> Self {
        MockManager { cmd: None, args: None, promission: true, calls: 0 }
    }

    fn get_cmds(&mut self) -> Option<String> {
        self.cmd.take()
    }

    fn get_args(&mut self) -> Option<Vec<String>> {
        self.args.take()
    }

    fn set_cmd_not_found(&mut self) {
        self.promission = false;
    }
}

#[test]
fn to_words_single() {
    let test = String::from("first");
    let got = to_words(&test);
    let expect = vec!["first".to_string()];
    assert_eq!(got.len(), 1);
    assert_eq!(got, expect);
}

#[test]
fn to_words_multi() {
    let test = String::from("first second third forth");
    let got = to_words(&test);
    let expect = vec![
        "first".to_string(),
        "second".to_string(),
        "third".to_string(),
        "forth".to_string(),
    ];
    assert_eq!(got.len(), 4);
    assert_eq!(got, expect);
}

#[test]
fn to_words_trims_line_ending() {
    let test = String::from("it 5\n");
    let got = to_words(&test);
    assert_eq!(got, vec!["it".to_string(), "5".to_string()]);
}

#[test]
fn to_words_blank_line_yields_no_tokens() {
    assert_eq!(to_words(&String::from("")).len(), 0);
    assert_eq!(to_words(&String::from("   \n")).len(), 0);
    assert_eq!(to_words(&String::from("\t \r\n")).len(), 0);
}

#[test]
fn to_words_keeps_inner_empty_fields() {
    let test = String::from("a  b");
    let got = to_words(&test);
    assert_eq!(got, vec!["a".to_string(), "".to_string(), "b".to_string()]);
}

#[test]
fn handle_cmd() {
    let mock = MockManager::new();
    let mut inter = Interactor::new(mock);
    let para: Vec<String> = vec!["help".to_string()];
    let got = inter.handle_cmd(para);
    assert!(matches!(got, Ok(())));
    let cmd = inter.manager.get_cmds();
    assert_eq!(cmd, Some("help".to_string()));
}

#[test]
fn handle_cmd_args() {
    let mock = MockManager::new();
    let mut inter = Interactor::new(mock);
    let para: Vec<String> =
        vec!["fist".to_string(), "second".to_string(), "third".to_string()];
    let got = inter.handle_cmd(para);
    assert!(matches!(got, Ok(())));
    let cmd = inter.manager.get_cmds();
    assert_eq!(cmd, Some("fist".to_string()));
    let args = inter.manager.get_args();
    assert_eq!(args, Some(vec!["second".to_string(), "third".to_string()]));
}

#[test]
fn handle_empty() {
    let mock = MockManager::new();
    let mut inter = Interactor::new(mock);
    let para: Vec<String> = vec![];
    let got = inter.handle_cmd(para);
    assert!(matches!(got, Err(HandlerErr::ArgLack)));
}

#[test]
fn handle_exit() {
    let mock = MockManager::new();
    let mut inter = Interactor::new(mock);
    let para: Vec<String> = vec!["exit".to_string()];
    let got = inter.handle_cmd(para);
    assert!(matches!(got, Err(HandlerErr::Exit)));
}

#[test]
fn handle_no_cmd() {
    let mut mock = MockManager::new();
    mock.set_cmd_not_found();
    let mut inter = Interactor::new(mock);
    let para: Vec<String> = vec!["notfound".to_string()];
    let got = inter.handle_cmd(para);
    assert!(matches!(got, Err(HandlerErr::NoCmd)));
}

#[test]
fn empty_line_never_invokes_capability() {
    let mut inter = Interactor::new(MockManager::new());
    let words = to_words(&String::from(""));
    assert_eq!(words.len(), 0);
    let got = inter.handle_cmd(words);
    assert!(matches!(got, Err(HandlerErr::ArgLack)));
    assert_eq!(inter.manager.calls, 0);
}

#[test]
fn exit_keyword_wins_over_capability_state() {
    let mut mock = MockManager::new();
    mock.set_cmd_not_found();
    let mut inter = Interactor::new(mock);
    let got = inter.handle_cmd(vec!["exit".to_string()]);
    assert!(matches!(got, Err(HandlerErr::Exit)));
    assert_eq!(inter.manager.calls, 0);
}

#[test]
fn unknown_command_invokes_help_once() {
    let mut mock = MockManager::new();
    mock.set_cmd_not_found();
    let mut inter = Interactor::new(mock);
    let got = inter.handle_cmd(vec!["bogus".to_string(), "1".to_string()]);
    assert!(matches!(got, Err(HandlerErr::NoCmd)));
    // the unrecognized command itself, then exactly one help invocation
    assert_eq!(inter.manager.calls, 2);
    assert_eq!(inter.manager.get_cmds(), Some("help".to_string()));
    assert_eq!(inter.manager.get_args(), Some(Vec::new()));
}
