//! The commands beside a conversation: which one is given, what it checks and what it tells.

use vstd::prelude::*;

use crate::llm;
use crate::text;
use crate::text::CharClass;
use crate::ui::KeyCode;

verus! {

// ---- Commands ----

/// What the program is started for.
#[derive(Clone, Copy, PartialEq, Eq, Structural, Debug)]
pub enum Command {
    CleanTest,
    Hotel,
    Xhs,
    Admin,
    Web,
    Tui,
    Cli,
}

pub open spec fn command_named(arg: Option<Seq<char>>) -> Command {
    match arg {
        Some(a) => if a == "clean-test"@ {
            Command::CleanTest
        } else if a == "hotel"@ {
            Command::Hotel
        } else if a == "xhs"@ {
            Command::Xhs
        } else if a == "admin"@ {
            Command::Admin
        } else if a == "web"@ {
            Command::Web
        } else if a == "TUI"@ || a == "tui"@ {
            Command::Tui
        } else {
            Command::Cli
        },
        None => Command::Cli,
    }
}

/// What the program is started for, by its first argument.
pub fn command(arg: &Option<String>) -> (r: Command)
    ensures
        r == command_named(llm::opt_text(*arg)),
{
    match arg {
        Some(s) => {
            let a = s.as_str();
            if text::same(a, "clean-test") {
                Command::CleanTest
            } else if text::same(a, "hotel") {
                Command::Hotel
            } else if text::same(a, "xhs") {
                Command::Xhs
            } else if text::same(a, "admin") {
                Command::Admin
            } else if text::same(a, "web") {
                Command::Web
            } else if text::same(a, "TUI") || text::same(a, "tui") {
                Command::Tui
            } else {
                Command::Cli
            }
        },
        None => Command::Cli,
    }
}

/// What is told of an argument that names nothing.
pub open spec fn unknown_text(arg: Seq<char>, known: Seq<char>) -> Seq<char> {
    "未知子命令 Some("@ + text::quoted(arg) + ")（可用："@ + known + "）"@
}

fn unknown(arg: &str, known: &str) -> (r: String)
    ensures
        r@ == unknown_text(arg@, known@),
{
    let mut s = text::copy_text("未知子命令 Some(");
    s.append(text::quote(arg).as_str());
    s.append(")（可用：");
    s.append(known);
    s.append("）");
    s
}

fn add_line(out: &mut String, head: &str, value: &str)
    ensures
        final(out)@ == old(out)@ + head@ + value@ + "\n"@,
{
    out.append(head);
    out.append(value);
    out.append("\n");
}

// ---- Hotels ----

/// Where the crawler is.
pub const CRAWLER_DIR: &'static str = "scripts/hotel_crawl";

/// Where its login is kept.
pub const CRAWLER_LOGIN: &'static str = "scripts/hotel_crawl/.ctrip-state.json";

/// What is to be done about hotels.
pub enum HotelOp {
    Login,
    Logout,
    Switch(bool),
    Status,
    Fail(String),
}

pub enum HotelOpModel {
    Login,
    Logout,
    Switch(bool),
    Status,
    Fail(Seq<char>),
}

impl View for HotelOp {
    type V = HotelOpModel;

    open spec fn view(&self) -> HotelOpModel {
        match *self {
            HotelOp::Login => HotelOpModel::Login,
            HotelOp::Logout => HotelOpModel::Logout,
            HotelOp::Switch(b) => HotelOpModel::Switch(b),
            HotelOp::Status => HotelOpModel::Status,
            HotelOp::Fail(s) => HotelOpModel::Fail(s@),
        }
    }
}

pub open spec fn hotel_op_named(sub: Option<Seq<char>>) -> HotelOpModel {
    match sub {
        Some(a) => if a == "login"@ {
            HotelOpModel::Login
        } else if a == "logout"@ {
            HotelOpModel::Logout
        } else if a == "on"@ {
            HotelOpModel::Switch(true)
        } else if a == "off"@ {
            HotelOpModel::Switch(false)
        } else if a == "status"@ {
            HotelOpModel::Status
        } else {
            HotelOpModel::Fail(unknown_text(a, "login | logout | on | off | status"@))
        },
        None => HotelOpModel::Status,
    }
}

/// What is to be done about hotels, by the argument behind the command.
pub fn hotel_manage(sub: &Option<String>) -> (r: HotelOp)
    ensures
        r@ == hotel_op_named(llm::opt_text(*sub)),
{
    match sub {
        Some(s) => {
            let a = s.as_str();
            if text::same(a, "login") {
                HotelOp::Login
            } else if text::same(a, "logout") {
                HotelOp::Logout
            } else if text::same(a, "on") {
                HotelOp::Switch(true)
            } else if text::same(a, "off") {
                HotelOp::Switch(false)
            } else if text::same(a, "status") {
                HotelOp::Status
            } else {
                HotelOp::Fail(unknown(a, "login | logout | on | off | status"))
            }
        },
        None => HotelOp::Status,
    }
}

/// What is missing for a login: what is told first, where anything is, and the error.
pub fn hotel_login_fault(script: bool, libraries: bool) -> (r: Option<(Option<&'static str>, &'static str)>)
    ensures
        match r {
            Some((told, e)) => if !script {
                told is None && e@
                    == "爬虫脚本缺失（scripts/hotel_crawl/crawl.mjs），请先拉取完整仓库"@
            } else {
                !libraries && told is Some && told->0@
                    == "playwright 未安装，先执行：cd scripts/hotel_crawl && npm i playwright && npx playwright install chromium"@
                    && e@ == "缺少依赖"@
            },
            None => script && libraries,
        },
{
    if !script {
        Some((None, "爬虫脚本缺失（scripts/hotel_crawl/crawl.mjs），请先拉取完整仓库"))
    } else if !libraries {
        Some(
            (
                Some(
                    "playwright 未安装，先执行：cd scripts/hotel_crawl && npm i playwright && npx playwright install chromium",
                ),
                "缺少依赖",
            ),
        )
    } else {
        None
    }
}

/// What is told after the login was run.
pub fn hotel_login_end(success: bool) -> (r: Result<&'static str, &'static str>)
    ensures
        match r {
            Ok(s) => success && s@ == "登录态已就绪，爬虫可用（开关状态见 ./trip hotel status）"@,
            Err(e) => !success && e@ == "登录未完成（可重新运行 ./trip hotel login）"@,
        },
{
    if success {
        Ok("登录态已就绪，爬虫可用（开关状态见 ./trip hotel status）")
    } else {
        Err("登录未完成（可重新运行 ./trip hotel login）")
    }
}

/// What is told after a logout.
pub fn hotel_logout_end(was_in: bool) -> (r: &'static str)
    ensures
        r@ == (if was_in {
            "已删除携程登录态（下次爬取前需 ./trip hotel login）"@
        } else {
            "本就无登录态，无需登出"@
        }),
{
    if was_in {
        "已删除携程登录态（下次爬取前需 ./trip hotel login）"
    } else {
        "本就无登录态，无需登出"
    }
}

pub open spec fn on_text(b: bool) -> Seq<char> {
    if b {
        "启用"@
    } else {
        "禁用"@
    }
}

fn on_word(b: bool) -> (r: &'static str)
    ensures
        r@ == on_text(b),
{
    if b {
        "启用"
    } else {
        "禁用"
    }
}

pub open spec fn bool_text(b: bool) -> Seq<char> {
    if b {
        "true"@
    } else {
        "false"@
    }
}

fn bool_word(b: bool) -> (r: &'static str)
    ensures
        r@ == bool_text(b),
{
    if b {
        "true"
    } else {
        "false"
    }
}

pub open spec fn pick(b: bool, yes: Seq<char>, no: Seq<char>) -> Seq<char> {
    if b {
        yes
    } else {
        no
    }
}

fn choose_text(b: bool, yes: &'static str, no: &'static str) -> (r: &'static str)
    ensures
        r@ == pick(b, yes@, no@),
{
    if b {
        yes
    } else {
        no
    }
}

/// What is told after the crawler was switched on or off.
pub fn hotel_switched(val: bool, crawler: bool, login: bool) -> (r: String)
    ensures
        r@ == "酒店爬虫已"@ + on_text(val) + "（toggles.hotel_crawler = "@ + bool_text(crawler)
            + "）；登录态："@ + pick(login, "在"@, "无（需 ./trip hotel login）"@),
{
    let mut s = text::copy_text("酒店爬虫已");
    s.append(on_word(val));
    s.append("（toggles.hotel_crawler = ");
    s.append(bool_word(crawler));
    s.append("）；登录态：");
    s.append(choose_text(login, "在", "无（需 ./trip hotel login）"));
    s
}

/// How it stands with the crawler, line by line: it can be used where it is switched on, its script
/// and libraries are there, and it is logged in.
pub open spec fn hotel_status_text(crawler: bool, script: bool, libraries: bool, login: bool) -> Seq<char> {
    Seq::<char>::empty() + "开关        : "@ + on_text(crawler) + "\n"@ + "爬虫脚本    : "@ + pick(
        script,
        "在"@,
        "缺"@,
    ) + "\n"@ + "playwright  : "@ + pick(libraries, "已安装"@, "未安装"@) + "\n"@ + "登录态      : "@
        + pick(login, "在"@, "无（./trip hotel login）"@) + "\n"@ + "综合        : "@ + pick(
        crawler && script && libraries && login,
        "可用 ✓"@,
        "不可用 ✗"@,
    ) + "\n"@
}

pub fn hotel_status(crawler: bool, script: bool, libraries: bool, login: bool) -> (r: String)
    ensures
        r@ == hotel_status_text(crawler, script, libraries, login),
{
    let mut s = String::new();
    assert(s@ =~= Seq::<char>::empty());
    add_line(&mut s, "开关        : ", on_word(crawler));
    add_line(&mut s, "爬虫脚本    : ", choose_text(script, "在", "缺"));
    add_line(&mut s, "playwright  : ", choose_text(libraries, "已安装", "未安装"));
    add_line(&mut s, "登录态      : ", choose_text(login, "在", "无（./trip hotel login）"));
    add_line(
        &mut s,
        "综合        : ",
        choose_text(crawler && script && libraries && login, "可用 ✓", "不可用 ✗"),
    );
    s
}

// ---- Notes of travellers ----

/// The script that logs in to the notes of travellers.
pub const XHS_SCRIPT: &'static str = "scripts/xhs-login.sh";

/// What is to be done about the notes of travellers.
pub enum XhsOp {
    /// The script is run: for a login without an argument, else with one.
    Script { op: String, arg: Option<String> },
    Switch(bool),
    Status,
    Fail(String),
}

pub enum XhsOpModel {
    Script { op: Seq<char>, arg: Option<Seq<char>> },
    Switch(bool),
    Status,
    Fail(Seq<char>),
}

impl View for XhsOp {
    type V = XhsOpModel;

    open spec fn view(&self) -> XhsOpModel {
        match *self {
            XhsOp::Script { op, arg } => XhsOpModel::Script { op: op@, arg: llm::opt_text(arg) },
            XhsOp::Switch(b) => XhsOpModel::Switch(b),
            XhsOp::Status => XhsOpModel::Status,
            XhsOp::Fail(s) => XhsOpModel::Fail(s@),
        }
    }
}

pub open spec fn xhs_op_named(sub: Option<Seq<char>>) -> XhsOpModel {
    match sub {
        Some(a) => if a == "login"@ {
            XhsOpModel::Script { op: a, arg: None }
        } else if a == "logout"@ || a == "check"@ {
            XhsOpModel::Script { op: a, arg: Some(a) }
        } else if a == "on"@ {
            XhsOpModel::Switch(true)
        } else if a == "off"@ {
            XhsOpModel::Switch(false)
        } else if a == "status"@ {
            XhsOpModel::Status
        } else {
            XhsOpModel::Fail(unknown_text(a, "login | logout | check | on | off | status"@))
        },
        None => XhsOpModel::Status,
    }
}

/// What is to be done about the notes of travellers, by the argument behind the command.
pub fn xhs_manage(sub: &Option<String>) -> (r: XhsOp)
    ensures
        r@ == xhs_op_named(llm::opt_text(*sub)),
{
    match sub {
        Some(s) => {
            let a = s.as_str();
            if text::same(a, "login") {
                XhsOp::Script { op: text::copy_text(a), arg: None }
            } else if text::same(a, "logout") || text::same(a, "check") {
                XhsOp::Script { op: text::copy_text(a), arg: Some(text::copy_text(a)) }
            } else if text::same(a, "on") {
                XhsOp::Switch(true)
            } else if text::same(a, "off") {
                XhsOp::Switch(false)
            } else if text::same(a, "status") {
                XhsOp::Status
            } else {
                XhsOp::Fail(unknown(a, "login | logout | check | on | off | status"))
            }
        },
        None => XhsOp::Status,
    }
}

/// What is told where the script failed.
pub fn xhs_script_failed(op: &str) -> (r: String)
    ensures
        r@ == "xhs "@ + op@ + " 未成功（见上方脚本输出）"@,
{
    let mut s = text::copy_text("xhs ");
    s.append(op);
    s.append(" 未成功（见上方脚本输出）");
    s
}

/// What is told after the notes were switched on or off: where the configuration keeps them off, that
/// too.
pub open spec fn xhs_switched_text(val: bool, switch: bool, configured: bool) -> Seq<char> {
    let head = "小红书工具已"@ + on_text(val) + "（toggles.xhs = "@ + bool_text(switch) + "）\n"@;
    let middle = if val && !configured {
        head + "注意：config.toml [xhs] enabled = false，需改为 true 才会注册工具\n"@
    } else {
        head
    };
    middle + "重启 cheaptrip 后生效\n"@
}

pub fn xhs_switched(val: bool, switch: bool, configured: bool) -> (r: String)
    ensures
        r@ == xhs_switched_text(val, switch, configured),
{
    let mut s = text::copy_text("小红书工具已");
    s.append(on_word(val));
    s.append("（toggles.xhs = ");
    s.append(bool_word(switch));
    s.append("）\n");
    if val && !configured {
        s.append("注意：config.toml [xhs] enabled = false，需改为 true 才会注册工具\n");
    }
    s.append("重启 cheaptrip 后生效\n");
    s
}

/// How it stands with the notes, line by line: they are on where both switches are.
pub open spec fn xhs_status_text(configured: bool, switch: bool, url: Seq<char>) -> Seq<char> {
    Seq::<char>::empty() + "config 开关 : "@ + on_text(configured) + "\n"@ + "运行时开关  : "@ + on_text(
        switch,
    ) + "\n"@ + "综合        : "@ + pick(
        switch && configured,
        "已启用（重启后生效）✓"@,
        "已禁用 ✗"@,
    ) + "\n"@ + "MCP 端点    : "@ + url + "\n"@ + "登录/连通   : "@ + "./trip xhs login | check"@
        + "\n"@
}

pub fn xhs_status(configured: bool, switch: bool, url: &str) -> (r: String)
    ensures
        r@ == xhs_status_text(configured, switch, url@),
{
    let mut s = String::new();
    assert(s@ =~= Seq::<char>::empty());
    add_line(&mut s, "config 开关 : ", on_word(configured));
    add_line(&mut s, "运行时开关  : ", on_word(switch));
    add_line(
        &mut s,
        "综合        : ",
        choose_text(switch && configured, "已启用（重启后生效）✓", "已禁用 ✗"),
    );
    add_line(&mut s, "MCP 端点    : ", url);
    add_line(&mut s, "登录/连通   : ", "./trip xhs login | check");
    s
}

// ---- Passwords ----

/// Where a password comes from.
pub enum PasswordSource {
    Stdin,
    Prompt,
    Fail(String),
}

pub enum PasswordSourceModel {
    Stdin,
    Prompt,
    Fail(Seq<char>),
}

impl View for PasswordSource {
    type V = PasswordSourceModel;

    open spec fn view(&self) -> PasswordSourceModel {
        match *self {
            PasswordSource::Stdin => PasswordSourceModel::Stdin,
            PasswordSource::Prompt => PasswordSourceModel::Prompt,
            PasswordSource::Fail(s) => PasswordSourceModel::Fail(s@),
        }
    }
}

/// Where a password comes from, by the arguments that are left: from standard input where these ask
/// for it, or else from the terminal. One argument that asks for nothing is passed over.
pub open spec fn password_source(args: Seq<Seq<char>>, terminal: bool) -> PasswordSourceModel {
    if args.len() > 0 && args[0] == "--password-stdin"@ {
        if args.len() > 1 {
            PasswordSourceModel::Fail("--password-stdin 后不能再有其他参数"@)
        } else {
            PasswordSourceModel::Stdin
        }
    } else if args.len() > 1 {
        PasswordSourceModel::Fail("未知参数；可使用 --password-stdin"@)
    } else if terminal {
        PasswordSourceModel::Prompt
    } else {
        PasswordSourceModel::Fail("非交互环境请使用 --password-stdin"@)
    }
}

pub fn read_password_input(args: &Vec<String>, terminal: bool) -> (r: PasswordSource)
    ensures
        r@ == password_source(text::views(args@), terminal),
{
    let ghost all = text::views(args@);
    if args.len() > 0 {
        assert(all[0] == args@[0]@);
        if text::same(args[0].as_str(), "--password-stdin") {
            if args.len() > 1 {
                return PasswordSource::Fail(
                    text::copy_text("--password-stdin 后不能再有其他参数"),
                );
            }
            return PasswordSource::Stdin;
        }
    }
    if args.len() > 1 {
        PasswordSource::Fail(text::copy_text("未知参数；可使用 --password-stdin"))
    } else if terminal {
        PasswordSource::Prompt
    } else {
        PasswordSource::Fail(text::copy_text("非交互环境请使用 --password-stdin"))
    }
}

/// The password of a line: without the end of the line, and of eight characters or more.
pub fn read_password_line(line: &str) -> (r: Result<String, String>)
    ensures
        ({
            let p = text::back_stripped(line@, CharClass::LineEnd);
            match r {
                Ok(s) => p.len() >= 8 && s@ == p,
                Err(e) => p.len() < 8 && e@ == "密码至少需要 8 个字符"@,
            }
        }),
{
    let p = text::strip_back(line, CharClass::LineEnd);
    if text::char_count(p.as_str()) < 8 {
        Err(text::copy_text("密码至少需要 8 个字符"))
    } else {
        Ok(p)
    }
}

/// What a key does to the entry of a password.
#[derive(Clone, Copy, PartialEq, Eq, Structural, Debug)]
pub enum EntryStep {
    More,
    Done,
    Cancelled,
}

/// A password as far as it has been entered.
pub struct PasswordEntry {
    pub text: Vec<char>,
}

/// What a key does to a password; `bare` says that it was pressed with no other.
pub open spec fn entry_step(s: Seq<char>, code: KeyCode, bare: bool) -> (Seq<char>, EntryStep) {
    match code {
        KeyCode::Enter => (s, EntryStep::Done),
        KeyCode::Esc => (s, EntryStep::Cancelled),
        KeyCode::Backspace => (
            if s.len() > 0 {
                s.drop_last()
            } else {
                s
            },
            EntryStep::More,
        ),
        KeyCode::Char(c) => (
            if bare {
                s.push(c)
            } else {
                s
            },
            EntryStep::More,
        ),
        _ => (s, EntryStep::More),
    }
}

impl PasswordEntry {
    pub fn new() -> (e: PasswordEntry)
        ensures
            e.text@ == Seq::<char>::empty(),
    {
        PasswordEntry { text: Vec::new() }
    }

    pub fn key(&mut self, code: KeyCode, bare: bool) -> (step: EntryStep)
        ensures
            (final(self).text@, step) == entry_step(old(self).text@, code, bare),
    {
        match code {
            KeyCode::Enter => EntryStep::Done,
            KeyCode::Esc => EntryStep::Cancelled,
            KeyCode::Backspace => {
                if self.text.len() > 0 {
                    self.text.pop();
                    assert(self.text@ =~= old(self).text@.drop_last());
                }
                EntryStep::More
            },
            KeyCode::Char(c) => {
                if bare {
                    self.text.push(c);
                }
                EntryStep::More
            },
            _ => EntryStep::More,
        }
    }

    pub fn password(&self) -> (s: String)
        ensures
            s@ == self.text@,
    {
        text::text_of(&self.text)
    }
}

/// What is typed and taken back leaves the password as it was.
pub proof fn law_backspace_takes_back(s: Seq<char>, c: char)
    ensures
        entry_step(entry_step(s, KeyCode::Char(c), true).0, KeyCode::Backspace, true).0 == s,
{
    assert(s.push(c).drop_last() =~= s);
}

// ---- Accounts ----

/// What is to be done about accounts.
pub enum AdminOp {
    /// The first administrator is made; `rest` tells where the password comes from.
    Init { username: String, rest: Vec<String> },
    List,
    Migrate { username: String },
    Reset { username: String, rest: Vec<String> },
    Fail(String),
}

pub enum AdminOpModel {
    Init { username: Seq<char>, rest: Seq<Seq<char>> },
    List,
    Migrate { username: Seq<char> },
    Reset { username: Seq<char>, rest: Seq<Seq<char>> },
    Fail(Seq<char>),
}

impl View for AdminOp {
    type V = AdminOpModel;

    open spec fn view(&self) -> AdminOpModel {
        match *self {
            AdminOp::Init { username, rest } => AdminOpModel::Init {
                username: username@,
                rest: text::views(rest@),
            },
            AdminOp::List => AdminOpModel::List,
            AdminOp::Migrate { username } => AdminOpModel::Migrate { username: username@ },
            AdminOp::Reset { username, rest } => AdminOpModel::Reset {
                username: username@,
                rest: text::views(rest@),
            },
            AdminOp::Fail(s) => AdminOpModel::Fail(s@),
        }
    }
}

/// What is to be done about accounts, by the arguments behind the command.
pub open spec fn admin_op(args: Seq<Seq<char>>) -> AdminOpModel {
    if args.len() > 0 && args[0] == "init"@ {
        if args.len() > 1 {
            AdminOpModel::Init { username: args[1], rest: args.skip(2) }
        } else {
            AdminOpModel::Fail("用法：./trip admin init <用户名> --password-stdin"@)
        }
    } else if args.len() > 0 && args[0] == "list"@ {
        AdminOpModel::List
    } else if args.len() > 0 && args[0] == "migrate-sessions"@ {
        if args.len() == 1 {
            AdminOpModel::Fail("用法：./trip admin migrate-sessions <管理员用户名>"@)
        } else if args.len() > 2 {
            AdminOpModel::Fail("migrate-sessions 不接受额外参数"@)
        } else {
            AdminOpModel::Migrate { username: args[1] }
        }
    } else if args.len() > 0 && args[0] == "reset-password"@ {
        if args.len() > 1 {
            AdminOpModel::Reset { username: args[1], rest: args.skip(2) }
        } else {
            AdminOpModel::Fail("用法：./trip admin reset-password <用户名> --password-stdin"@)
        }
    } else {
        AdminOpModel::Fail("用法：./trip admin init|list|reset-password|migrate-sessions ..."@)
    }
}

fn behind(args: &Vec<String>, from: usize) -> (r: Vec<String>)
    requires
        from <= args@.len(),
    ensures
        text::views(r@) == text::views(args@).skip(from as int),
{
    let ghost all = text::views(args@).skip(from as int);
    let mut out: Vec<String> = Vec::new();
    let mut i: usize = from;
    assert(text::views(out@) =~= all.take(0));
    while i < args.len()
        invariant
            from <= i <= args@.len(),
            all == text::views(args@).skip(from as int),
            text::views(out@) == all.take(i - from),
        decreases args@.len() - i,
    {
        let s = text::copy_text(args[i].as_str());
        proof {
            text::lemma_views_push(out@, s);
        }
        out.push(s);
        assert(text::views(out@) =~= all.take(i - from + 1));
        i = i + 1;
    }
    assert(all.take(all.len() as int) =~= all);
    out
}

/// What is to be done about accounts, by the arguments behind the command.
pub fn admin_manage(args: &Vec<String>) -> (r: AdminOp)
    ensures
        r@ == admin_op(text::views(args@)),
{
    let ghost all = text::views(args@);
    if args.len() == 0 {
        return AdminOp::Fail(
            text::copy_text("用法：./trip admin init|list|reset-password|migrate-sessions ..."),
        );
    }
    assert(all[0] == args@[0]@);
    let action = args[0].as_str();
    if text::same(action, "init") {
        if args.len() > 1 {
            assert(all[1] == args@[1]@);
            AdminOp::Init { username: text::copy_text(args[1].as_str()), rest: behind(args, 2) }
        } else {
            AdminOp::Fail(text::copy_text("用法：./trip admin init <用户名> --password-stdin"))
        }
    } else if text::same(action, "list") {
        AdminOp::List
    } else if text::same(action, "migrate-sessions") {
        if args.len() == 1 {
            AdminOp::Fail(text::copy_text("用法：./trip admin migrate-sessions <管理员用户名>"))
        } else if args.len() > 2 {
            AdminOp::Fail(text::copy_text("migrate-sessions 不接受额外参数"))
        } else {
            assert(all[1] == args@[1]@);
            AdminOp::Migrate { username: text::copy_text(args[1].as_str()) }
        }
    } else if text::same(action, "reset-password") {
        if args.len() > 1 {
            assert(all[1] == args@[1]@);
            AdminOp::Reset { username: text::copy_text(args[1].as_str()), rest: behind(args, 2) }
        } else {
            AdminOp::Fail(
                text::copy_text("用法：./trip admin reset-password <用户名> --password-stdin"),
            )
        }
    } else {
        AdminOp::Fail(
            text::copy_text("用法：./trip admin init|list|reset-password|migrate-sessions ..."),
        )
    }
}

/// Whether the first administrator may be made.
pub fn admin_init_check(admins: u64) -> (r: Result<(), &'static str>)
    ensures
        match r {
            Ok(_) => admins == 0,
            Err(e) => admins > 0 && e@ == "管理员已存在；不能重复初始化"@,
        },
{
    if admins > 0 {
        Err("管理员已存在；不能重复初始化")
    } else {
        Ok(())
    }
}

/// Whether sessions may be given to an account, which is an administrator's or not, where there is
/// one.
pub fn admin_migrate_check(account: Option<bool>) -> (r: Result<(), &'static str>)
    ensures
        match r {
            Ok(_) => account == Some(true),
            Err(e) => match account {
                None => e@ == "指定管理员不存在"@,
                Some(admin) => !admin && e@ == "只能把旧会话迁移给管理员"@,
            },
        },
{
    match account {
        None => Err("指定管理员不存在"),
        Some(true) => Ok(()),
        Some(false) => Err("只能把旧会话迁移给管理员"),
    }
}

/// What is told after the first administrator was made.
pub fn admin_made(username: &str, database: &str) -> (r: String)
    ensures
        r@ == "管理员已创建："@ + username@ + "（数据库："@ + database@ + "）"@,
{
    let mut s = text::copy_text("管理员已创建：");
    s.append(username);
    s.append("（数据库：");
    s.append(database);
    s.append("）");
    s
}

/// An account in the list.
pub fn account_line(username: &str, role: &str, enabled: bool, must_change: bool) -> (r: String)
    ensures
        r@ == username@ + "\trole="@ + role@ + "\tenabled="@ + bool_text(enabled)
            + "\tmust_change_password="@ + bool_text(must_change),
{
    let mut s = text::copy_text(username);
    s.append("\trole=");
    s.append(role);
    s.append("\tenabled=");
    s.append(bool_word(enabled));
    s.append("\tmust_change_password=");
    s.append(bool_word(must_change));
    s
}

/// What is told after sessions were given to an administrator.
pub fn sessions_migrated(count: usize, username: &str) -> (r: String)
    ensures
        r@ == "已将 "@ + text::dec(count as nat) + " 个未归属会话迁移给管理员 "@ + username@ + "。"@,
{
    let mut s = text::copy_text("已将 ");
    s.append(text::number(count as u64).as_str());
    s.append(" 个未归属会话迁移给管理员 ");
    s.append(username);
    s.append("。");
    s
}

/// What is told after a password was reset.
pub fn password_was_reset(username: &str) -> (r: String)
    ensures
        r@ == "已为 "@ + username@ + " 设置一次性新密码；首次登录必须修改。"@,
{
    let mut s = text::copy_text("已为 ");
    s.append(username);
    s.append(" 设置一次性新密码；首次登录必须修改。");
    s
}

// ---- What tests leave behind ----

/// The directories that tests write to.
pub open spec fn test_dirs() -> Seq<Seq<char>> {
    seq!["maps/test"@, "maps/probe"@, "hotels/test"@, "hotels/probe"@]
}

pub fn clean_test_maps() -> (r: Vec<String>)
    ensures
        text::views(r@) == test_dirs(),
{
    let mut v: Vec<String> = Vec::new();
    v.push(text::copy_text("maps/test"));
    v.push(text::copy_text("maps/probe"));
    v.push(text::copy_text("hotels/test"));
    v.push(text::copy_text("hotels/probe"));
    assert(text::views(v@) =~= test_dirs());
    v
}

/// What is told of such a directory: how many files it held, where it was there.
pub fn cleaned(dir: &str, files: Option<usize>) -> (r: String)
    ensures
        r@ == (match files {
            Some(n) => "已删除 "@ + dir@ + "（"@ + text::dec(n as nat) + " 个文件）"@,
            None => dir@ + " 不存在，跳过"@,
        }),
{
    match files {
        Some(n) => {
            let mut s = text::copy_text("已删除 ");
            s.append(dir);
            s.append("（");
            s.append(text::number(n as u64).as_str());
            s.append(" 个文件）");
            s
        },
        None => {
            let mut s = text::copy_text(dir);
            s.append(" 不存在，跳过");
            s
        },
    }
}

/// The first word on the command line names what is run; any other word, and none, runs the command
/// line.
pub proof fn law_words_name_what_is_run(a: Seq<char>)
    ensures
        command_named(Some("clean-test"@)) == Command::CleanTest,
        command_named(Some("hotel"@)) == Command::Hotel,
        command_named(Some("xhs"@)) == Command::Xhs,
        command_named(Some("admin"@)) == Command::Admin,
        command_named(Some("web"@)) == Command::Web,
        command_named(Some("tui"@)) == Command::Tui,
        command_named(Some("TUI"@)) == Command::Tui,
        command_named(None) == Command::Cli,
        a != "clean-test"@ && a != "hotel"@ && a != "xhs"@ && a != "admin"@ && a != "web"@ && a != "TUI"@ && a != "tui"@ ==> command_named(Some(a)) == Command::Cli,
{
    reveal_strlit("clean-test");
    reveal_strlit("hotel");
    reveal_strlit("xhs");
    reveal_strlit("admin");
    reveal_strlit("web");
    reveal_strlit("TUI");
    reveal_strlit("tui");
    assert("clean-test"@.len() == 10);
    assert("hotel"@.len() == 5);
    assert("xhs"@.len() == 3);
    assert("admin"@.len() == 5);
    assert("web"@.len() == 3);
    assert("TUI"@.len() == 3);
    assert("tui"@.len() == 3);
    assert("admin"@[0] == 'a');
    assert("hotel"@[0] == 'h');
    assert("web"@[0] == 'w');
    assert("xhs"@[0] == 'x');
    assert("TUI"@[0] == 'T');
    assert("tui"@[0] == 't');
}

/// The word behind `hotel` names what is done, and without one the state is told; any other word is
/// refused with those there are.
pub proof fn law_hotel_words(a: Seq<char>)
    ensures
        hotel_op_named(None) == HotelOpModel::Status,
        hotel_op_named(Some("status"@)) == HotelOpModel::Status,
        hotel_op_named(Some("login"@)) == HotelOpModel::Login,
        hotel_op_named(Some("logout"@)) == HotelOpModel::Logout,
        hotel_op_named(Some("on"@)) == HotelOpModel::Switch(true),
        hotel_op_named(Some("off"@)) == HotelOpModel::Switch(false),
        a != "login"@ && a != "logout"@ && a != "on"@ && a != "off"@ && a != "status"@ ==> hotel_op_named(Some(a))
            == HotelOpModel::Fail(
            "未知子命令 Some("@ + text::quoted(a) + ")（可用："@ + "login | logout | on | off | status"@
                + "）"@,
        ),
{
    reveal_strlit("login");
    reveal_strlit("logout");
    reveal_strlit("on");
    reveal_strlit("off");
    reveal_strlit("status");
    assert("login"@.len() == 5);
    assert("logout"@.len() == 6);
    assert("on"@.len() == 2);
    assert("off"@.len() == 3);
    assert("status"@.len() == 6);
    assert("status"@[0] == 's');
    assert("logout"@[0] == 'l');
}

/// The word behind `xhs` names what is done, and without one the state is told; the script logs in
/// without a word and is told the others.
pub proof fn law_xhs_words(a: Seq<char>)
    ensures
        xhs_op_named(None) == XhsOpModel::Status,
        xhs_op_named(Some("status"@)) == XhsOpModel::Status,
        xhs_op_named(Some("login"@)) == (XhsOpModel::Script { op: "login"@, arg: None }),
        xhs_op_named(Some("logout"@)) == (XhsOpModel::Script {
            op: "logout"@,
            arg: Some("logout"@),
        }),
        xhs_op_named(Some("check"@)) == (XhsOpModel::Script { op: "check"@, arg: Some("check"@) }),
        xhs_op_named(Some("on"@)) == XhsOpModel::Switch(true),
        xhs_op_named(Some("off"@)) == XhsOpModel::Switch(false),
        a != "login"@ && a != "logout"@ && a != "check"@ && a != "on"@ && a != "off"@ && a != "status"@ ==> xhs_op_named(Some(a)) == XhsOpModel::Fail(
            "未知子命令 Some("@ + text::quoted(a) + ")（可用："@
                + "login | logout | check | on | off | status"@ + "）"@,
        ),
{
    reveal_strlit("login");
    reveal_strlit("logout");
    reveal_strlit("check");
    reveal_strlit("on");
    reveal_strlit("off");
    reveal_strlit("status");
    assert("login"@.len() == 5);
    assert("logout"@.len() == 6);
    assert("check"@.len() == 5);
    assert("on"@.len() == 2);
    assert("off"@.len() == 3);
    assert("status"@.len() == 6);
    assert("check"@[0] == 'c');
    assert("login"@[0] == 'l');
    assert("status"@[0] == 's');
    assert("logout"@[0] == 'l');
}

/// The state of the hotel search is told point by point, and it can be used where every point holds.
pub proof fn law_hotel_states_are_told(crawler: bool, script: bool, libraries: bool, login: bool)
    ensures
        ({
            let switch = if crawler {
                "启用"@
            } else {
                "禁用"@
            };
            let file = if script {
                "在"@
            } else {
                "缺"@
            };
            let library = if libraries {
                "已安装"@
            } else {
                "未安装"@
            };
            let state = if login {
                "在"@
            } else {
                "无（./trip hotel login）"@
            };
            let all = if crawler && script && libraries && login {
                "可用 ✓"@
            } else {
                "不可用 ✗"@
            };
            hotel_status_text(crawler, script, libraries, login) == Seq::<char>::empty()
                + "开关        : "@ + switch + "\n"@ + "爬虫脚本    : "@ + file + "\n"@
                + "playwright  : "@ + library + "\n"@ + "登录态      : "@ + state + "\n"@
                + "综合        : "@ + all + "\n"@
        }),
{
}

/// The state of the notes tools is told point by point, and they are there where both switches are on;
/// whoever turns them on is told where the configuration leaves them off.
pub proof fn law_xhs_states_are_told(configured: bool, switch: bool, url: Seq<char>)
    ensures
        ({
            let first = if configured {
                "启用"@
            } else {
                "禁用"@
            };
            let second = if switch {
                "启用"@
            } else {
                "禁用"@
            };
            let all = if switch && configured {
                "已启用（重启后生效）✓"@
            } else {
                "已禁用 ✗"@
            };
            xhs_status_text(configured, switch, url) == Seq::<char>::empty() + "config 开关 : "@ + first
                + "\n"@ + "运行时开关  : "@ + second + "\n"@ + "综合        : "@ + all + "\n"@
                + "MCP 端点    : "@ + url + "\n"@ + "登录/连通   : "@ + "./trip xhs login | check"@
                + "\n"@
        }),
        xhs_switched_text(true, true, true) == "小红书工具已"@ + "启用"@ + "（toggles.xhs = "@ + "true"@
            + "）\n"@ + "重启 cheaptrip 后生效\n"@,
        xhs_switched_text(true, true, false) == "小红书工具已"@ + "启用"@ + "（toggles.xhs = "@ + "true"@
            + "）\n"@ + "注意：config.toml [xhs] enabled = false，需改为 true 才会注册工具\n"@
            + "重启 cheaptrip 后生效\n"@,
        xhs_switched_text(false, false, configured) == "小红书工具已"@ + "禁用"@ + "（toggles.xhs = "@
            + "false"@ + "）\n"@ + "重启 cheaptrip 后生效\n"@,
{
}

/// A password is asked for at a terminal and read from the input where that is asked for; anything else
/// is refused.
pub proof fn law_passwords_are_asked_for(args: Seq<Seq<char>>)
    ensures
        password_source(seq!["--password-stdin"@], true) == PasswordSourceModel::Stdin,
        password_source(seq!["--password-stdin"@], false) == PasswordSourceModel::Stdin,
        password_source(Seq::empty(), true) == PasswordSourceModel::Prompt,
        password_source(Seq::empty(), false) == PasswordSourceModel::Fail(
            "非交互环境请使用 --password-stdin"@,
        ),
        args.len() > 1 && args[0] == "--password-stdin"@ ==> password_source(args, true)
            == PasswordSourceModel::Fail("--password-stdin 后不能再有其他参数"@) && password_source(
            args,
            false,
        ) == PasswordSourceModel::Fail("--password-stdin 后不能再有其他参数"@),
        args.len() > 1 && args[0] != "--password-stdin"@ ==> password_source(args, true)
            == PasswordSourceModel::Fail("未知参数；可使用 --password-stdin"@) && password_source(
            args,
            false,
        ) == PasswordSourceModel::Fail("未知参数；可使用 --password-stdin"@),
{
}

/// A password is typed character by character, without control keys, ends with the enter key and is
/// given up with Esc; no other key changes it.
pub proof fn law_passwords_are_typed(s: Seq<char>, c: char)
    ensures
        entry_step(s, KeyCode::Char(c), true) == (s.push(c), EntryStep::More),
        entry_step(s, KeyCode::Char(c), false) == (s, EntryStep::More),
        entry_step(s, KeyCode::Enter, true) == (s, EntryStep::Done),
        entry_step(s, KeyCode::Esc, true) == (s, EntryStep::Cancelled),
        entry_step(s, KeyCode::Left, true) == (s, EntryStep::More),
        entry_step(Seq::empty(), KeyCode::Backspace, true) == (
            Seq::<char>::empty(),
            EntryStep::More,
        ),
        entry_step(s.push(c), KeyCode::Backspace, true) == (s, EntryStep::More),
{
    assert(s.push(c).drop_last() =~= s);
}

/// The words behind `admin` name what is done and for whom; what is missing or too much is refused
/// with the use of the command.
pub proof fn law_admin_words(args: Seq<Seq<char>>, name: Seq<char>, rest: Seq<Seq<char>>)
    ensures
        admin_op(seq!["init"@, name] + rest) == (AdminOpModel::Init { username: name, rest }),
        admin_op(seq!["reset-password"@, name] + rest) == (AdminOpModel::Reset {
            username: name,
            rest,
        }),
        admin_op(seq!["migrate-sessions"@, name]) == (AdminOpModel::Migrate { username: name }),
        rest.len() > 0 ==> admin_op(seq!["migrate-sessions"@, name] + rest) == AdminOpModel::Fail(
            "migrate-sessions 不接受额外参数"@,
        ),
        admin_op(seq!["list"@] + rest) == AdminOpModel::List,
        admin_op(seq!["init"@]) == AdminOpModel::Fail(
            "用法：./trip admin init <用户名> --password-stdin"@,
        ),
        admin_op(seq!["reset-password"@]) == AdminOpModel::Fail(
            "用法：./trip admin reset-password <用户名> --password-stdin"@,
        ),
        admin_op(seq!["migrate-sessions"@]) == AdminOpModel::Fail(
            "用法：./trip admin migrate-sessions <管理员用户名>"@,
        ),
        args.len() == 0 || (args[0] != "init"@ && args[0] != "list"@ && args[0] != "migrate-sessions"@ && args[0] != "reset-password"@) ==> admin_op(args)
            == AdminOpModel::Fail("用法：./trip admin init|list|reset-password|migrate-sessions ..."@),
{
    reveal_strlit("init");
    reveal_strlit("list");
    reveal_strlit("migrate-sessions");
    reveal_strlit("reset-password");
    assert("init"@.len() == 4);
    assert("list"@.len() == 4);
    assert("migrate-sessions"@.len() == 16);
    assert("reset-password"@.len() == 14);
    assert("list"@[0] == 'l');
    assert("init"@[0] == 'i');
    assert((seq!["init"@, name] + rest).skip(2) =~= rest);
    assert((seq!["reset-password"@, name] + rest).skip(2) =~= rest);
}

/// What tests leave behind lies in these directories.
pub proof fn law_test_directories_are_these()
    ensures
        test_dirs() == seq!["maps/test"@, "maps/probe"@, "hotels/test"@, "hotels/probe"@],
        CRAWLER_DIR@ == "scripts/hotel_crawl"@,
        CRAWLER_LOGIN@ == "scripts/hotel_crawl/.ctrip-state.json"@,
        XHS_SCRIPT@ == "scripts/xhs-login.sh"@,
{
}

} // verus!
