//! Log queries: LogQL text and the parameters of a range query.

use vstd::prelude::*;
use vstd::string::*;

use crate::number::{decimal, decimal_text};
use crate::text::{chars_of, debug_text, each_pair, optional, quoted};

verus! {

/// What a caller asks for: lines of a service in a span of time.
pub struct LogRequest {
    pub service: String,
    pub start: String,
    pub end: String,
    pub level: Option<String>,
    pub search: Option<String>,
    pub search_is_regex: bool,
    pub limit: Option<u32>,
}

/// A log query, ready to be put into LogQL.
pub struct LogQuery {
    pub service_label: String,
    pub service: String,
    pub start: String,
    pub end: String,
    pub limit: u32,
    pub max_limit: u32,
    pub level: Option<String>,
    pub level_label: Option<String>,
    pub search: Option<String>,
    pub search_is_regex: bool,
}

/// Why a query cannot be put into LogQL.
#[derive(Debug)]
pub enum QueryError {
    /// The level is not a single level name.
    InvalidLevel { level: String },
}

impl QueryError {
    /// The error in words.
    pub fn message(&self) -> (text: String)
        ensures
            text@ == invalid_level_message(self->level@),
    {
        match self {
            QueryError::InvalidLevel { level } => {
                invalid_level_text(quoted(level.as_str()).as_str())
            },
        }
    }
}

/// What is said of a level that is not a level name, shown between quotation marks.
pub fn invalid_level_text(shown: &str) -> (text: String)
    ensures
        text@ == "invalid level "@ + shown@
            + ": use a single level name like error, warn, crit, or trace"@,
{
    let mut out = "invalid level ".to_owned();
    out.append(shown);
    out.append(": use a single level name like error, warn, crit, or trace");
    out
}

/// What is said of a level that is not a level name.
pub open spec fn invalid_level_message(level: Seq<char>) -> Seq<char> {
    "invalid level "@ + debug_text(level)
        + ": use a single level name like error, warn, crit, or trace"@
}

/// A character inside a quoted LogQL string.
pub open spec fn escaped_char(c: char) -> Seq<char> {
    if c == '\\' || c == '"' {
        seq!['\\', c]
    } else {
        seq![c]
    }
}

/// A text inside a quoted LogQL string: a backslash stands before each
/// backslash and each quotation mark.
pub open spec fn escaped(text: Seq<char>) -> Seq<char>
    decreases text.len(),
{
    if text.len() == 0 {
        Seq::empty()
    } else {
        escaped_char(text[0]) + escaped(text.drop_first())
    }
}

/// A letter or digit of ASCII, an underscore or a hyphen.
pub open spec fn is_level_char(c: char) -> bool {
    ||| 'a' <= c <= 'z'
    ||| 'A' <= c <= 'Z'
    ||| '0' <= c <= '9'
    ||| c == '_'
    ||| c == '-'
}

/// A level name: not empty, and made of word characters and hyphens.
pub open spec fn is_level(text: Seq<char>) -> bool {
    text.len() > 0 && forall|i: int| 0 <= i < text.len() ==> is_level_char(#[trigger] text[i])
}

/// The stream selector: the service, and the level where a label holds it.
pub open spec fn selector(
    service_label: Seq<char>,
    service: Seq<char>,
    level: Option<Seq<char>>,
    level_label: Option<Seq<char>>,
) -> Seq<char> {
    let head = "{"@ + escaped(service_label) + "=\""@ + escaped(service);
    match (level, level_label) {
        (Some(lvl), Some(label)) => head + "\", "@ + escaped(label) + "=\""@ + escaped(lvl)
            + "\"}"@,
        _ => head + "\"}"@,
    }
}

/// The selector, followed by a regex filter for the level where no label holds it.
pub open spec fn level_filtered(
    service_label: Seq<char>,
    service: Seq<char>,
    level: Option<Seq<char>>,
    level_label: Option<Seq<char>>,
) -> Seq<char> {
    let chosen = selector(service_label, service, level, level_label);
    match (level, level_label) {
        (Some(lvl), None) => chosen + " |~ `(?i)level[=:\"]+\\s*"@ + lvl + "`"@,
        _ => chosen,
    }
}

/// What stands between the filters so far and the quoted search text.
pub open spec fn search_operator(is_regex: bool) -> Seq<char> {
    if is_regex {
        " |~ \""@
    } else {
        " |= \""@
    }
}

impl LogQuery {
    /// No level is asked for, or one that is a level name.
    pub open spec fn level_is_valid(&self) -> bool {
        optional(self.level) matches Some(lvl) ==> is_level(lvl)
    }

    /// The query up to its level filter.
    pub open spec fn filtered(&self) -> Seq<char> {
        level_filtered(
            self.service_label@,
            self.service@,
            optional(self.level),
            optional(self.level_label),
        )
    }

    /// The query in LogQL.
    pub open spec fn logql(&self) -> Seq<char> {
        match self.search {
            Some(text) => self.filtered() + search_operator(self.search_is_regex) + escaped(text@)
                + "\""@,
            None => self.filtered(),
        }
    }

    /// The parameters of the range query.
    pub open spec fn params(&self) -> Seq<(Seq<char>, Seq<char>)> {
        let limit = if self.limit <= self.max_limit {
            self.limit
        } else {
            self.max_limit
        };
        seq![
            ("query"@, self.logql()),
            ("start"@, self.start@),
            ("end"@, self.end@),
            ("limit"@, decimal(limit as nat)),
            ("direction"@, "backward"@),
        ]
    }

    /// The query in LogQL, unless the level is not a level name.
    pub fn to_logql(&self) -> (result: Result<String, QueryError>)
        ensures
            match result {
                Ok(text) => self.level_is_valid() && text@ == self.logql(),
                Err(error) => !self.level_is_valid() && self.level is Some && error->level@
                    == self.level->0@,
            },
    {
        if let Some(level) = &self.level {
            match validate_level(level.as_str()) {
                Ok(()) => {},
                Err(error) => {
                    return Err(error);
                },
            }
        }
        let mut out = "{".to_owned();
        out.append(escape_logql(self.service_label.as_str()).as_str());
        out.append("=\"");
        out.append(escape_logql(self.service.as_str()).as_str());
        match (&self.level, &self.level_label) {
            (Some(level), Some(label)) => {
                out.append("\", ");
                out.append(escape_logql(label.as_str()).as_str());
                out.append("=\"");
                out.append(escape_logql(level.as_str()).as_str());
                out.append("\"}");
            },
            _ => {
                out.append("\"}");
            },
        }
        match (&self.level, &self.level_label) {
            (Some(level), None) => {
                out.append(" |~ `(?i)level[=:\"]+\\s*");
                out.append(level.as_str());
                out.append("`");
            },
            _ => {},
        }
        if let Some(text) = &self.search {
            if self.search_is_regex {
                out.append(" |~ \"");
            } else {
                out.append(" |= \"");
            }
            out.append(escape_logql(text.as_str()).as_str());
            out.append("\"");
        }
        Ok(out)
    }

    /// The parameters of the range query, newest lines first, with the limit
    /// held to the cap; unless the level is not a level name.
    pub fn to_params(&self) -> (result: Result<Vec<(String, String)>, QueryError>)
        ensures
            match result {
                Ok(params) => self.level_is_valid() && each_pair(params@) == self.params(),
                Err(error) => !self.level_is_valid() && self.level is Some && error->level@
                    == self.level->0@,
            },
    {
        let limit: u32 = if self.limit <= self.max_limit {
            self.limit
        } else {
            self.max_limit
        };
        let logql = match self.to_logql() {
            Ok(text) => text,
            Err(error) => {
                return Err(error);
            },
        };
        let mut params: Vec<(String, String)> = Vec::new();
        params.push(("query".to_owned(), logql));
        params.push(("start".to_owned(), self.start.clone()));
        params.push(("end".to_owned(), self.end.clone()));
        params.push(("limit".to_owned(), decimal_text(limit as u64)));
        params.push(("direction".to_owned(), "backward".to_owned()));
        assert(each_pair(params@) =~= self.params());
        Ok(params)
    }
}

/// The limit that a request gets.
pub open spec fn granted_limit(requested: Option<u32>, default_limit: u32, max_limit: u32) -> u32 {
    let wanted = match requested {
        Some(n) => n,
        None => default_limit,
    };
    if wanted <= max_limit {
        wanted
    } else {
        max_limit
    }
}

/// The limit of a request: what it asks for, or else the default, and never
/// more than the cap.
pub fn resolve_limit(requested: Option<u32>, default_limit: u32, max_limit: u32) -> (limit: u32)
    ensures
        limit == granted_limit(requested, default_limit, max_limit),
        limit <= max_limit,
{
    let wanted: u32 = match requested {
        Some(n) => n,
        None => default_limit,
    };
    if wanted <= max_limit {
        wanted
    } else {
        max_limit
    }
}

/// `text` as it stands inside a quoted LogQL string.
pub fn escape_logql(text: &str) -> (r: String)
    ensures
        r@ == escaped(text@),
{
    let chars = chars_of(text);
    let mut out = String::new();
    let mut i: usize = 0;
    assert(text@.skip(0) =~= text@);
    while i < chars.len()
        invariant
            chars@ == text@,
            i <= chars@.len(),
            out@ + escaped(text@.skip(i as int)) =~= escaped(text@),
        decreases chars@.len() - i,
    {
        let c: char = chars[i];
        assert(text@.skip(i as int).drop_first() =~= text@.skip(i + 1));
        if c == '\\' || c == '"' {
            out.push('\\');
        }
        out.push(c);
        i = i + 1;
    }
    out
}

/// Accepts a level name. A level goes into a regex between backticks, where
/// nothing can be escaped, so only word characters and hyphens will do.
pub fn validate_level(level: &str) -> (result: Result<(), QueryError>)
    ensures
        match result {
            Ok(()) => is_level(level@),
            Err(error) => !is_level(level@) && error->level@ == level@,
        },
{
    let chars = chars_of(level);
    if chars.len() == 0 {
        return Err(QueryError::InvalidLevel { level: level.to_owned() });
    }
    let mut i: usize = 0;
    while i < chars.len()
        invariant
            chars@ == level@,
            i <= chars@.len(),
            forall|k: int| 0 <= k < i ==> is_level_char(#[trigger] level@[k]),
        decreases chars@.len() - i,
    {
        let c: char = chars[i];
        let word: bool = ('a' <= c && c <= 'z') || ('A' <= c && c <= 'Z') || ('0' <= c && c <= '9')
            || c == '_' || c == '-';
        if !word {
            assert(!is_level_char(level@[i as int]));
            return Err(QueryError::InvalidLevel { level: level.to_owned() });
        }
        i = i + 1;
    }
    Ok(())
}

/// Reads the rest of a quoted string, from a position behind the opening
/// quotation mark: the text that it stands for, and the position behind the
/// closing mark. A backslash makes the backslash or mark behind it plain.
pub open spec fn read_quoted(source: Seq<char>, at: int) -> Option<(Seq<char>, int)>
    decreases source.len() - at,
{
    if at < 0 || at >= source.len() {
        None
    } else if source[at] == '"' {
        Some((Seq::empty(), at + 1))
    } else if source[at] == '\\' {
        if at + 1 < source.len() && (source[at + 1] == '\\' || source[at + 1] == '"') {
            match read_quoted(source, at + 2) {
                Some((rest, end)) => Some((seq![source[at + 1]] + rest, end)),
                None => None,
            }
        } else {
            None
        }
    } else {
        match read_quoted(source, at + 1) {
            Some((rest, end)) => Some((seq![source[at]] + rest, end)),
            None => None,
        }
    }
}

/// Reads the rest of a raw string, from a position behind the opening
/// backtick: everything up to the next backtick.
pub open spec fn read_raw(source: Seq<char>, at: int) -> Option<(Seq<char>, int)>
    decreases source.len() - at,
{
    if at < 0 || at >= source.len() {
        None
    } else if source[at] == '`' {
        Some((Seq::empty(), at + 1))
    } else {
        match read_raw(source, at + 1) {
            Some((rest, end)) => Some((seq![source[at]] + rest, end)),
            None => None,
        }
    }
}

/// Whatever a text holds, its escaped form, closed by a quotation mark, reads
/// back as that text and ends at that mark, wherever it stands.
pub proof fn escaped_text_reads_back(front: Seq<char>, text: Seq<char>, behind: Seq<char>)
    ensures
        read_quoted(front + escaped(text) + seq!['"'] + behind, front.len() as int) == Some(
            (text, 1int + front.len() + escaped(text).len()),
        ),
    decreases text.len(),
{
    let source = front + escaped(text) + seq!['"'] + behind;
    let at = front.len() as int;
    if text.len() == 0 {
        assert(source[at] == '"');
        assert(text =~= Seq::empty());
    } else {
        let c = text[0];
        let rest = text.drop_first();
        let front2 = front + escaped_char(c);
        escaped_text_reads_back(front2, rest, behind);
        assert(front2 + escaped(rest) + seq!['"'] + behind =~= source);
        assert(source[at] == escaped_char(c)[0]);
        if c == '\\' || c == '"' {
            assert(source[at + 1] == escaped_char(c)[1]);
        }
        assert(seq![c] + rest =~= text);
    }
}

proof fn lemma_raw_reads_back(front: Seq<char>, text: Seq<char>, behind: Seq<char>)
    requires
        forall|i: int| 0 <= i < text.len() ==> #[trigger] text[i] != '`',
    ensures
        read_raw(front + text + seq!['`'] + behind, front.len() as int) == Some(
            (text, 1int + front.len() + text.len()),
        ),
    decreases text.len(),
{
    let source = front + text + seq!['`'] + behind;
    let at = front.len() as int;
    if text.len() == 0 {
        assert(source[at] == '`');
        assert(text =~= Seq::empty());
    } else {
        let c = text[0];
        let rest = text.drop_first();
        let front2 = front.push(c);
        lemma_raw_reads_back(front2, rest, behind);
        assert(front2 + rest + seq!['`'] + behind =~= source);
        assert(source[at] == c);
        assert(seq![c] + rest =~= text);
    }
}

/// Different texts have different escaped forms.
pub proof fn escape_is_injective(a: Seq<char>, b: Seq<char>)
    requires
        escaped(a) == escaped(b),
    ensures
        a == b,
{
    escaped_text_reads_back(Seq::empty(), a, Seq::empty());
    escaped_text_reads_back(Seq::empty(), b, Seq::empty());
}

/// In the LogQL of a query, the string at the service's place is the service
/// that was asked for, whatever its name holds.
pub proof fn service_reads_back(query: LogQuery)
    ensures
        ({
            let at = 3int + escaped(query.service_label@).len();
            read_quoted(query.logql(), at) == Some(
                (query.service@, at + escaped(query.service@).len() + 1),
            )
        }),
{
    reveal_strlit("{");
    reveal_strlit("=\"");
    reveal_strlit("\"}");
    reveal_strlit("\", ");
    let front = "{"@ + escaped(query.service_label@) + "=\""@;
    let head = front + escaped(query.service@);
    let logql = query.logql();
    assert(head.is_prefix_of(query.filtered()));
    assert(head.is_prefix_of(logql));
    assert(logql[head.len() as int] == '"');
    let behind = logql.skip((head.len() + 1) as int);
    assert(logql =~= front + escaped(query.service@) + seq!['"'] + behind);
    escaped_text_reads_back(front, query.service@, behind);
}

/// In the LogQL of a query whose level goes into a label, the string at the
/// level's place is the level that was asked for.
pub proof fn level_label_reads_back(query: LogQuery)
    requires
        query.level is Some,
        query.level_label is Some,
    ensures
        ({
            let at = 8int + escaped(query.service_label@).len() + escaped(query.service@).len()
                + escaped(query.level_label->0@).len();
            read_quoted(query.logql(), at) == Some(
                (query.level->0@, at + escaped(query.level->0@).len() + 1),
            )
        }),
{
    reveal_strlit("{");
    reveal_strlit("=\"");
    reveal_strlit("\", ");
    reveal_strlit("\"}");
    let level = query.level->0@;
    let front = "{"@ + escaped(query.service_label@) + "=\""@ + escaped(query.service@) + "\", "@
        + escaped(query.level_label->0@) + "=\""@;
    let head = front + escaped(level);
    let logql = query.logql();
    assert(query.filtered() == head + "\"}"@);
    assert(head.is_prefix_of(logql));
    assert(logql[head.len() as int] == '"');
    let behind = logql.skip((head.len() + 1) as int);
    assert(logql =~= front + escaped(level) + seq!['"'] + behind);
    escaped_text_reads_back(front, level, behind);
}

/// In the LogQL of a query whose level goes into a regex, the raw string that
/// holds it ends at its own closing backtick and holds the whole level.
pub proof fn level_regex_reads_back(query: LogQuery)
    requires
        query.level is Some,
        query.level_label is None,
        query.level_is_valid(),
    ensures
        ({
            let at = 10int + escaped(query.service_label@).len() + escaped(query.service@).len();
            let pattern = "(?i)level[=:\"]+\\s*"@ + query.level->0@;
            read_raw(query.logql(), at) == Some((pattern, at + pattern.len() + 1))
        }),
{
    reveal_strlit("{");
    reveal_strlit("=\"");
    reveal_strlit("\"}");
    reveal_strlit("`");
    reveal_strlit(" |~ `(?i)level[=:\"]+\\s*");
    reveal_strlit("(?i)level[=:\"]+\\s*");
    let level = query.level->0@;
    let chosen = "{"@ + escaped(query.service_label@) + "=\""@ + escaped(query.service@) + "\"}"@;
    let front = chosen + seq![' ', '|', '~', ' ', '`'];
    let pattern = "(?i)level[=:\"]+\\s*"@ + level;
    let logql = query.logql();
    let filtered = query.filtered();
    assert(filtered =~= front + pattern + seq!['`']);
    assert(filtered.is_prefix_of(logql));
    let behind = logql.skip(filtered.len() as int);
    assert(logql =~= front + pattern + seq!['`'] + behind);
    assert forall|i: int| 0 <= i < pattern.len() implies #[trigger] pattern[i] != '`' by {
        let fixed = "(?i)level[=:\"]+\\s*"@;
        if i >= fixed.len() {
            assert(is_level_char(level[i - fixed.len()]));
        }
    }
    lemma_raw_reads_back(front, pattern, behind);
}

/// In the LogQL of a query with a search text, the last string is that text,
/// it ends with the query, and the filters in front of it are those of the
/// query without a search.
pub proof fn search_reads_back(query: LogQuery)
    requires
        query.search is Some,
    ensures
        query.filtered().is_prefix_of(query.logql()),
        read_quoted(query.logql(), (query.filtered().len() + 5) as int) == Some(
            (query.search->0@, query.logql().len() as int),
        ),
{
    reveal_strlit(" |~ \"");
    reveal_strlit(" |= \"");
    reveal_strlit("\"");
    let text = query.search->0@;
    let front = query.filtered() + search_operator(query.search_is_regex);
    assert(query.logql() =~= front + escaped(text) + seq!['"'] + Seq::empty());
    escaped_text_reads_back(front, text, Seq::empty());
}

/// The limit that goes into the parameters never exceeds the query's cap, and
/// a limit that was granted under that cap goes in as it is.
pub proof fn granted_limit_is_kept(query: LogQuery, requested: Option<u32>, default_limit: u32)
    requires
        query.limit == granted_limit(requested, default_limit, query.max_limit),
    ensures
        query.limit <= query.max_limit,
        query.params()[3] == ("limit"@, decimal(query.limit as nat)),
{
}

} // verus!
