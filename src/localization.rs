//! Display languages and the texts of the history viewer.
use vstd::prelude::*;
use vstd::string::{StrSliceExecFns, StringExecFns};

verus! {

#[derive(Clone, Copy, Debug, PartialEq, Eq, Structural, Hash)]
pub enum Language {
    Korean,
    English,
}

impl Default for Language {
    fn default() -> (r: Language)
        ensures
            r == Language::Korean,
    {
        Language::Korean
    }
}

impl Language {
    /// The language's own name for itself.
    pub fn label(&self) -> (r: &'static str)
        ensures
            r@ == match *self {
                Language::Korean => "한국어"@,
                Language::English => "English"@,
            },
    {
        match self {
            Language::Korean => "한국어",
            Language::English => "English",
        }
    }
}

/// The texts of the viewer in one language.
#[derive(Clone, Copy, Debug)]
pub struct Texts {
    pub app_title: &'static str,
    pub app_description: &'static str,
    pub refresh: &'static str,
    pub loading: &'static str,
    pub status: &'static str,
    pub retry: &'static str,
    pub no_items: &'static str,
    pub server_check: &'static str,
    pub total_items: &'static str,
    pub memo: &'static str,
    pub copy_failed: &'static str,
    pub copied_to_clipboard: &'static str,
    pub language: &'static str,
}

/// The viewer's texts in Korean.
pub open spec fn korean_texts(t: Texts) -> bool {
    &&& t.app_title@ == "Pastery Pop - 클립보드 관리자"@
    &&& t.app_description@ == "Pastery 서버의 클립보드 항목들을 관리할 수 있습니다."@
    &&& t.refresh@ == "새로고침"@
    &&& t.loading@ == "클립보드 항목을 불러오는 중..."@
    &&& t.status@ == "상태"@
    &&& t.retry@ == "다시 시도"@
    &&& t.no_items@ == "클립보드 항목이 없습니다."@
    &&& t.server_check@ == "Pastery 서버가 실행 중인지 확인해주세요. (http://localhost:3030)"@
    &&& t.total_items@ == "개의 클립보드 항목:"@
    &&& t.memo@ == "메모"@
    &&& t.copy_failed@ == "클립보드 복사 실패"@
    &&& t.copied_to_clipboard@ == "클립보드에 복사됨"@
    &&& t.language@ == "언어"@
}

/// The viewer's texts in English.
pub open spec fn english_texts(t: Texts) -> bool {
    &&& t.app_title@ == "Pastery Pop - Clipboard Manager"@
    &&& t.app_description@ == "Manage clipboard items from Pastery server."@
    &&& t.refresh@ == "Refresh"@
    &&& t.loading@ == "Loading clipboard items..."@
    &&& t.status@ == "Status"@
    &&& t.retry@ == "Retry"@
    &&& t.no_items@ == "No clipboard items found."@
    &&& t.server_check@ == "Please check if Pastery server is running. (http://localhost:3030)"@
    &&& t.total_items@ == "clipboard items:"@
    &&& t.memo@ == "Memo"@
    &&& t.copy_failed@ == "Failed to copy to clipboard"@
    &&& t.copied_to_clipboard@ == "Copied to clipboard"@
    &&& t.language@ == "Language"@
}

impl Texts {
    pub fn new(language: Language) -> (r: Texts)
        ensures
            language == Language::Korean ==> korean_texts(r),
            language == Language::English ==> english_texts(r),
    {
        match language {
            Language::Korean => Self::korean(),
            Language::English => Self::english(),
        }
    }

    pub fn korean() -> (r: Texts)
        ensures
            korean_texts(r),
    {
        Texts {
            app_title: "Pastery Pop - 클립보드 관리자",
            app_description: "Pastery 서버의 클립보드 항목들을 관리할 수 있습니다.",
            refresh: "새로고침",
            loading: "클립보드 항목을 불러오는 중...",
            status: "상태",
            retry: "다시 시도",
            no_items: "클립보드 항목이 없습니다.",
            server_check: "Pastery 서버가 실행 중인지 확인해주세요. (http://localhost:3030)",
            total_items: "개의 클립보드 항목:",
            memo: "메모",
            copy_failed: "클립보드 복사 실패",
            copied_to_clipboard: "클립보드에 복사됨",
            language: "언어",
        }
    }

    pub fn english() -> (r: Texts)
        ensures
            english_texts(r),
    {
        Texts {
            app_title: "Pastery Pop - Clipboard Manager",
            app_description: "Manage clipboard items from Pastery server.",
            refresh: "Refresh",
            loading: "Loading clipboard items...",
            status: "Status",
            retry: "Retry",
            no_items: "No clipboard items found.",
            server_check: "Please check if Pastery server is running. (http://localhost:3030)",
            total_items: "clipboard items:",
            memo: "Memo",
            copy_failed: "Failed to copy to clipboard",
            copied_to_clipboard: "Copied to clipboard",
            language: "Language",
        }
    }
}

/// `s` cut to its first `max_chars` characters followed by "..." when it is longer than
/// that, `s` itself otherwise.
pub fn truncate_string(s: &str, max_chars: usize) -> (r: String)
    ensures
        r@ == if s@.len() > max_chars { s@.take(max_chars as int) + "..."@ } else { s@ },
{
    let n = s.unicode_len();
    if n > max_chars {
        let mut r = String::from_str(s.substring_char(0, max_chars));
        r.append("...");
        r
    } else {
        String::from_str(s)
    }
}

} // verus!
