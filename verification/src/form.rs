//! The search form's state and its transitions: what happens when the
//! user asks for a search, and how the state absorbs the results.  The
//! drawing of the form is presentation and stays outside the library;
//! every decision the form takes is here.

use vstd::prelude::*;
use vstd::string::StrSliceExecFns;
use vstd::string::StringExecFns;
use crate::args::Argument;
use crate::text::dec_rep;
use crate::text::dec_string;

verus! {

/// The state behind the search form: the fields the user edits, the
/// results of the last query, and the two message slots the form shows.
pub struct FileSearchApp {
    /// The name the user typed.
    pub search_name: String,
    /// The root directory the user typed.
    pub search_path: String,
    /// Whether hidden entries are searched.
    pub search_hidden: bool,
    /// Whether only files may match.
    pub file_only: bool,
    /// Whether the name must match exactly.
    pub strict_mode: bool,
    /// Whether case is ignored.
    pub case_miss: bool,
    /// The comma-separated suffix filter the user typed.
    pub file_suffix: String,
    /// The paths the last query returned.
    pub search_results: Vec<String>,
    /// The line of status text under the form.
    pub status_message: String,
    /// An error to show in a dialog, when present.
    pub message: Option<String>,
}

/// The status line shown when a query found `n` entries.
pub open spec fn found_message(n: nat) -> Seq<char> {
    "找到 "@ + dec_rep(n) + " 个文件！"@
}

impl FileSearchApp {
    /// The user asked for a search.  An empty name is rejected: the error
    /// dialog is filled and no query runs.  Otherwise the status line
    /// announces the search and the query's arguments are handed back,
    /// built from the form's fields.
    pub fn on_search_clicked(&mut self) -> (r: Option<Argument>)
        ensures
            old(self).search_name@.len() == 0 ==> {
                &&& r is None
                &&& final(self).message is Some
                &&& final(self).message->Some_0@ == "搜索关键字不能为空"@
                &&& final(self).status_message == old(self).status_message
            },
            old(self).search_name@.len() > 0 ==> {
                &&& r is Some
                &&& r->Some_0.name@ == old(self).search_name@
                &&& r->Some_0.target@ == old(self).search_path@
                &&& r->Some_0.search_hidden == old(self).search_hidden
                &&& r->Some_0.file_only == old(self).file_only
                &&& r->Some_0.strict_mode == old(self).strict_mode
                &&& r->Some_0.case_miss == old(self).case_miss
                &&& r->Some_0.suffix@ == old(self).file_suffix@
                &&& final(self).message == old(self).message
                &&& final(self).status_message@ == "正在搜索..."@
            },
            final(self).search_name == old(self).search_name,
            final(self).search_path == old(self).search_path,
            final(self).search_hidden == old(self).search_hidden,
            final(self).file_only == old(self).file_only,
            final(self).strict_mode == old(self).strict_mode,
            final(self).case_miss == old(self).case_miss,
            final(self).file_suffix == old(self).file_suffix,
            final(self).search_results == old(self).search_results,
    {
        let check = crate::args::check_search_param(self.search_name.as_str());
        if check.status == 1 {
            self.message = Some(check.message);
            None
        } else {
            self.status_message = String::from_str("正在搜索...");
            Some(
                Argument {
                    name: self.search_name.clone(),
                    target: self.search_path.clone(),
                    search_hidden: self.search_hidden,
                    file_only: self.file_only,
                    strict_mode: self.strict_mode,
                    case_miss: self.case_miss,
                    suffix: self.file_suffix.clone(),
                },
            )
        }
    }

    /// A query finished: the results are stored and the status line says
    /// either that nothing was found or how many entries were.
    pub fn apply_results(&mut self, results: Vec<String>)
        ensures
            final(self).search_results == results,
            results@.len() == 0 ==> final(self).status_message@ == "未找到匹配的文件！"@,
            results@.len() > 0 ==> final(self).status_message@ == found_message(results@.len()),
            final(self).search_name == old(self).search_name,
            final(self).search_path == old(self).search_path,
            final(self).search_hidden == old(self).search_hidden,
            final(self).file_only == old(self).file_only,
            final(self).strict_mode == old(self).strict_mode,
            final(self).case_miss == old(self).case_miss,
            final(self).file_suffix == old(self).file_suffix,
            final(self).message == old(self).message,
    {
        if results.len() == 0 {
            self.status_message = String::from_str("未找到匹配的文件！");
        } else {
            let mut msg = String::from_str("找到 ");
            let count = dec_string(results.len());
            msg.append(count.as_str());
            msg.append(" 个文件！");
            self.status_message = msg;
        }
        self.search_results = results;
    }

    /// The error dialog was closed: the error is cleared and nothing else
    /// changes.
    pub fn dismiss_message(&mut self)
        ensures
            final(self).message is None,
            final(self).search_name == old(self).search_name,
            final(self).search_path == old(self).search_path,
            final(self).search_hidden == old(self).search_hidden,
            final(self).file_only == old(self).file_only,
            final(self).strict_mode == old(self).strict_mode,
            final(self).case_miss == old(self).case_miss,
            final(self).file_suffix == old(self).file_suffix,
            final(self).search_results == old(self).search_results,
            final(self).status_message == old(self).status_message,
    {
        self.message = None;
    }
}

} // verus!
