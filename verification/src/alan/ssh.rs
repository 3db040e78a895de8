use crate::alan::hash::{template_command, template_of};
use crate::alan::insights::{insight_texts, InsightText, push_insight};
use crate::alan::store::{one_if, SshRowText, Store, tally};
use crate::text::{
    begins_with, chars_of, decimal, extend_count, extend_str, find_last, is_text, join_from,
    joined, last_index_of, lemma_last_index_of_bounds, nearest, round_ratio, rows, same_chars,
    slice_chars, split_words, starts_with, string_of, text_of, words_of,
};
use vstd::prelude::*;

verus! {

/// What an `ssh` command line says: where it connects and what it runs there.
pub struct SshInfo {
    pub host: String,
    pub remote_command: Option<String>,
    pub user: Option<String>,
    pub port: Option<String>,
}

/// The text of an `SshInfo`.
pub struct SshText {
    pub host: Seq<char>,
    pub remote_command: Option<Seq<char>>,
    pub user: Option<Seq<char>>,
    pub port: Option<Seq<char>>,
}

impl View for SshInfo {
    type V = SshText;

    open spec fn view(&self) -> SshText {
        SshText {
            host: self.host@,
            remote_command: text_of(self.remote_command),
            user: text_of(self.user),
            port: text_of(self.port),
        }
    }
}

/// Whether `word` is an option of ssh that is followed by its argument.
pub open spec fn takes_argument(word: Seq<char>) -> bool {
    ||| word == "-p"@
    ||| word == "-l"@
    ||| word == "-i"@
    ||| word == "-o"@
    ||| word == "-F"@
    ||| word == "-J"@
    ||| word == "-W"@
}

/// The value that the option `flag` gets at position `i`, if `words[i]` is
/// that option and a word follows it; otherwise what was known before.
pub open spec fn option_value(
    words: Seq<Seq<char>>,
    i: int,
    flag: Seq<char>,
    before: Option<Seq<char>>,
) -> Option<Seq<char>> {
    if words[i] == flag && i + 1 < words.len() {
        Some(words[i + 1])
    } else {
        before
    }
}

/// What the first word that is no option says: `user@host` or `host`, and
/// the words after it as the remote command.
pub open spec fn target_at(
    words: Seq<Seq<char>>,
    i: int,
    user: Option<Seq<char>>,
    port: Option<Seq<char>>,
) -> SshText {
    let word = words[i];
    let at = last_index_of(word, '@');
    SshText {
        host: if at >= 0 {
            word.subrange(at + 1, word.len() as int)
        } else {
            word
        },
        remote_command: if i + 1 < words.len() {
            Some(joined(words.skip(i + 1), " "@))
        } else {
            None
        },
        user: if at >= 0 {
            Some(word.subrange(0, at))
        } else {
            user
        },
        port,
    }
}

/// Reads the words of an `ssh` command line from position `i` on.
pub open spec fn ssh_walk(
    words: Seq<Seq<char>>,
    i: int,
    user: Option<Seq<char>>,
    port: Option<Seq<char>>,
) -> Option<SshText>
    decreases words.len() - i,
{
    if i < 0 || i >= words.len() {
        None
    } else if takes_argument(words[i]) {
        if i + 2 >= words.len() {
            None
        } else {
            ssh_walk(
                words,
                i + 2,
                option_value(words, i, "-l"@, user),
                option_value(words, i, "-p"@, port),
            )
        }
    } else if starts_with(words[i], '-') {
        ssh_walk(words, i + 1, user, port)
    } else {
        Some(target_at(words, i, user, port))
    }
}

/// What a command line says if its first word is `ssh` and it names a host.
pub open spec fn ssh_parse(command: Seq<char>) -> Option<SshText> {
    let words = words_of(command);
    if words.len() == 0 || words[0] != "ssh"@ {
        None
    } else {
        ssh_walk(words, 1, None, None)
    }
}

/// Among the options that take an argument, `-p` and `-l` are spelled
/// unlike each other and unlike the rest.
proof fn lemma_flags_differ(word: Seq<char>)
    requires
        takes_argument(word),
    ensures
        word == "-p"@ ==> word != "-l"@,
        word == "-p"@ <==> word[1] == 'p',
        word == "-l"@ <==> word[1] == 'l',
        word.len() == 2,
{
    reveal_strlit("-p");
    reveal_strlit("-l");
    reveal_strlit("-i");
    reveal_strlit("-o");
    reveal_strlit("-F");
    reveal_strlit("-J");
    reveal_strlit("-W");
    if word[1] == 'p' {
        assert(word =~= "-p"@);
    }
    if word[1] == 'l' {
        assert(word =~= "-l"@);
    }
}

fn flag_takes_argument(word: &Vec<char>) -> (r: bool)
    ensures
        r == takes_argument(word@),
{
    is_text(word, "-p") || is_text(word, "-l") || is_text(word, "-i") || is_text(word, "-o")
        || is_text(word, "-F") || is_text(word, "-J") || is_text(word, "-W")
}

fn read_target(words: &Vec<Vec<char>>, i: usize, user: Option<String>, port: Option<String>) -> (r:
    SshInfo)
    requires
        i < words.len(),
    ensures
        r@ == target_at(rows(words@), i as int, text_of(user), text_of(port)),
{
    let word = &words[i];
    let space = chars_of(" ");
    let remote_command = if i + 1 < words.len() {
        let rest = join_from(words, i + 1, &space);
        Some(string_of(&rest))
    } else {
        None
    };
    proof {
        lemma_last_index_of_bounds(word@, '@');
    }
    match find_last(word, '@') {
        Some(at) => {
            let name = slice_chars(word, 0, at);
            let host = slice_chars(word, at + 1, word.len());
            SshInfo {
                host: string_of(&host),
                remote_command,
                user: Some(string_of(&name)),
                port,
            }
        },
        None => SshInfo { host: string_of(word), remote_command, user, port },
    }
}

/// Reads an `ssh` command line. `None` where the first word is not `ssh`
/// or no host is named.
pub fn parse_ssh_command(command: &str) -> (r: Option<SshInfo>)
    ensures
        match r {
            Some(info) => ssh_parse(command@) == Some(info@),
            None => ssh_parse(command@) is None,
        },
{
    let chars = chars_of(command);
    let words = split_words(&chars);
    if words.len() == 0 || !is_text(&words[0], "ssh") {
        return None;
    }
    let mut user: Option<String> = None;
    let mut port: Option<String> = None;
    let mut i: usize = 1;
    while i < words.len()
        invariant
            1 <= i,
            rows(words@) == words_of(command@),
            ssh_parse(command@) == ssh_walk(rows(words@), i as int, text_of(user), text_of(port)),
        decreases words.len() - i,
    {
        let word = &words[i];
        if flag_takes_argument(word) {
            if words.len() - i <= 2 {
                return None;
            }
            proof {
                lemma_flags_differ(word@);
            }
            if is_text(word, "-p") {
                port = Some(string_of(&words[i + 1]));
            } else if is_text(word, "-l") {
                user = Some(string_of(&words[i + 1]));
            }
            i += 2;
        } else if begins_with(word, '-') {
            i += 1;
        } else {
            return Some(read_target(&words, i, user, port));
        }
    }
    None
}

/// How a remote-shell exit code is read.
#[derive(Clone, Copy, Debug, PartialEq, Eq, Structural)]
pub enum SshExit {
    Success,
    CommandFailed,
    ConnectionFailed,
    Unknown,
}

/// The classification table: 0 succeeded, 1 to 254 is the remote
/// command's own failure, 255 is the transport's, anything else is unknown.
pub open spec fn ssh_exit_of(exit_code: int) -> SshExit {
    if exit_code == 0 {
        SshExit::Success
    } else if exit_code == 255 {
        SshExit::ConnectionFailed
    } else if 1 <= exit_code <= 254 {
        SshExit::CommandFailed
    } else {
        SshExit::Unknown
    }
}

/// The word under which a class of exit is stored.
pub open spec fn ssh_exit_word(kind: SshExit) -> Seq<char> {
    match kind {
        SshExit::Success => "success"@,
        SshExit::CommandFailed => "command_failed"@,
        SshExit::ConnectionFailed => "connection_failed"@,
        SshExit::Unknown => "unknown"@,
    }
}

pub fn ssh_exit_kind(exit_code: i32) -> (r: SshExit)
    ensures
        r == ssh_exit_of(exit_code as int),
{
    if exit_code == 0 {
        SshExit::Success
    } else if exit_code == 255 {
        SshExit::ConnectionFailed
    } else if 1 <= exit_code && exit_code <= 254 {
        SshExit::CommandFailed
    } else {
        SshExit::Unknown
    }
}

/// The word under which the exit code of an `ssh` command is stored.
pub fn classify_ssh_exit(exit_code: i32) -> (r: &'static str)
    ensures
        r@ == ssh_exit_word(ssh_exit_of(exit_code as int)),
{
    match ssh_exit_kind(exit_code) {
        SshExit::Success => "success",
        SshExit::CommandFailed => "command_failed",
        SshExit::ConnectionFailed => "connection_failed",
        SshExit::Unknown => "unknown",
    }
}


/// How often `ssh` went to a host.
pub open spec fn host_runs(rows: Seq<SshRowText>, host: Seq<char>) -> nat {
    tally(rows, |r: SshRowText| one_if(r.host == host))
}

/// How often it went there and the remote command succeeded.
pub open spec fn host_successes(rows: Seq<SshRowText>, host: Seq<char>) -> nat {
    tally(rows, |r: SshRowText| one_if(r.host == host && r.exit_type == "success"@))
}

/// How often the connection to the host failed.
pub open spec fn host_connection_failures(rows: Seq<SshRowText>, host: Seq<char>) -> nat {
    tally(rows, |r: SshRowText| one_if(r.host == host && r.exit_type == "connection_failed"@))
}

/// What is said of a host: that connections to it fail in more than
/// three of ten tries, or that all of at least three tries succeeded.
pub open spec fn host_insights(host: Seq<char>, total: int, successes: int, failures: int) -> Seq<
    InsightText,
> {
    if total > 0 && 10 * failures > 3 * total {
        seq![
            (
                "warning"@,
                "Host '"@ + host + "' has "@ + decimal(nearest(100 * failures, total))
                    + "% connection failure rate ("@ + decimal(failures) + "/"@ + decimal(total)
                    + ")."@,
            ),
        ]
    } else if total >= 3 && successes == total {
        seq![
            (
                "info"@,
                "Host '"@ + host + "' is reliable: "@ + decimal(total)
                    + " successful connections."@,
            ),
        ]
    } else {
        Seq::empty()
    }
}

pub open spec fn runs_template(row: SshRowText, template: Seq<char>) -> bool {
    row.remote_command_template == Some(template)
}

/// How often a remote command of the template `template` was run.
pub open spec fn remote_runs(rows: Seq<SshRowText>, template: Seq<char>) -> nat {
    tally(rows, |r: SshRowText| one_if(runs_template(r, template)))
}

pub open spec fn remote_successes(rows: Seq<SshRowText>, template: Seq<char>) -> nat {
    tally(rows, |r: SshRowText| one_if(runs_template(r, template) && r.exit_type == "success"@))
}

pub open spec fn remote_failures(rows: Seq<SshRowText>, template: Seq<char>) -> nat {
    tally(
        rows,
        |r: SshRowText| one_if(runs_template(r, template) && r.exit_type == "command_failed"@),
    )
}

/// Whether one of the first `n` rows ran the template on `host`.
pub open spec fn host_seen(rows: Seq<SshRowText>, template: Seq<char>, host: Seq<char>, n: int) -> bool {
    exists|j: int| 0 <= j < n && j < rows.len() && runs_template(#[trigger] rows[j], template)
        && rows[j].host == host
}

/// On how many hosts the first `n` rows ran the template.
pub open spec fn remote_hosts(rows: Seq<SshRowText>, template: Seq<char>, n: int) -> nat
    decreases n,
{
    if n <= 0 {
        0
    } else if runs_template(rows[n - 1], template) && !host_seen(
        rows,
        template,
        rows[n - 1].host,
        n - 1,
    ) {
        remote_hosts(rows, template, n - 1) + 1
    } else {
        remote_hosts(rows, template, n - 1)
    }
}

/// What is said of a remote command: that it fails more often than not,
/// or that it succeeded in more than nine of ten of at least three tries.
pub open spec fn remote_insights(
    template: Seq<char>,
    total: int,
    successes: int,
    failures: int,
    hosts: int,
) -> Seq<InsightText> {
    if total > 0 && failures > 0 && 2 * successes < total {
        seq![
            (
                "warning"@,
                "Remote command '"@ + template + "' fails often ("@ + decimal(failures) + "/"@
                    + decimal(total) + " across "@ + decimal(hosts) + " hosts)."@,
            ),
        ]
    } else if total >= 3 && 10 * successes > 9 * total {
        seq![
            (
                "info"@,
                "Remote command '"@ + template + "' reliable across "@ + decimal(hosts)
                    + " hosts ("@ + decimal(nearest(100 * successes, total)) + "% success)."@,
            ),
        ]
    } else {
        Seq::empty()
    }
}

/// What the record says of the host and of the remote command of an
/// `ssh` command; nothing of any other command.
pub open spec fn ssh_insights(rows: Seq<SshRowText>, command: Seq<char>) -> Seq<InsightText> {
    match ssh_parse(command) {
        None => Seq::empty(),
        Some(info) => host_insights(
            info.host,
            host_runs(rows, info.host) as int,
            host_successes(rows, info.host) as int,
            host_connection_failures(rows, info.host) as int,
        ) + (match info.remote_command {
            Some(remote) => if template_of(remote).len() > 0 {
                remote_insights(
                    template_of(remote),
                    remote_runs(rows, template_of(remote)) as int,
                    remote_successes(rows, template_of(remote)) as int,
                    remote_failures(rows, template_of(remote)) as int,
                    remote_hosts(rows, template_of(remote), rows.len() as int) as int,
                )
            } else {
                Seq::empty()
            },
            None => Seq::empty(),
        }),
    }
}

fn is_word(s: &String, word: &str) -> (r: bool)
    ensures
        r == (s@ == word@),
{
    is_text(&chars_of(s.as_str()), word)
}

fn add_host_insights(insights: &mut Vec<(String, String)>, store: &Store, host: &str)
    ensures
        insight_texts(final(insights)@) == insight_texts(old(insights)@) + host_insights(
            host@,
            host_runs(store@.ssh_observations, host@) as int,
            host_successes(store@.ssh_observations, host@) as int,
            host_connection_failures(store@.ssh_observations, host@) as int,
        ),
{
    let wanted = chars_of(host);
    let ghost all = store@.ssh_observations;
    let mut total: usize = 0;
    let mut successes: usize = 0;
    let mut failures: usize = 0;
    let mut i: usize = 0;
    assert(all.take(0) =~= Seq::<SshRowText>::empty());
    while i < store.ssh_observations.len()
        invariant
            i <= store.ssh_observations.len(),
            wanted@ == host@,
            all == store@.ssh_observations,
            total == host_runs(all.take(i as int), host@),
            successes == host_successes(all.take(i as int), host@),
            failures == host_connection_failures(all.take(i as int), host@),
            successes <= total <= i,
            failures <= total,
        decreases store.ssh_observations.len() - i,
    {
        assert(all.take(i + 1).drop_last() =~= all.take(i as int));
        assert(all.take(i + 1).last() == store.ssh_observations@[i as int]@);
        let row = &store.ssh_observations[i];
        if same_chars(&chars_of(row.host.as_str()), &wanted) {
            total += 1;
            if is_word(&row.exit_type, "success") {
                successes += 1;
            }
            if is_word(&row.exit_type, "connection_failed") {
                failures += 1;
            }
        }
        i += 1;
    }
    assert(all.take(store.ssh_observations.len() as int) =~= all);
    let ghost before = insight_texts(insights@);
    if total > 0 && 10 * (failures as u128) > 3 * (total as u128) {
        let mut message = chars_of("Host '");
        extend_str(&mut message, host);
        extend_str(&mut message, "' has ");
        extend_count(&mut message, round_ratio(100 * (failures as u128), total as u128));
        extend_str(&mut message, "% connection failure rate (");
        extend_count(&mut message, failures as u128);
        extend_str(&mut message, "/");
        extend_count(&mut message, total as u128);
        extend_str(&mut message, ").");
        push_insight(insights, "warning", &message);
        assert(insight_texts(insights@) =~= before + host_insights(
            host@,
            total as int,
            successes as int,
            failures as int,
        ));
    } else if total >= 3 && successes == total {
        let mut message = chars_of("Host '");
        extend_str(&mut message, host);
        extend_str(&mut message, "' is reliable: ");
        extend_count(&mut message, total as u128);
        extend_str(&mut message, " successful connections.");
        push_insight(insights, "info", &message);
        assert(insight_texts(insights@) =~= before + host_insights(
            host@,
            total as int,
            successes as int,
            failures as int,
        ));
    } else {
        assert(insight_texts(insights@) =~= before + host_insights(
            host@,
            total as int,
            successes as int,
            failures as int,
        ));
    }
}

fn template_matches(row_template: &Option<String>, wanted: &Vec<char>) -> (r: bool)
    ensures
        r == (text_of(*row_template) == Some(wanted@)),
{
    match row_template {
        Some(t) => same_chars(&chars_of(t.as_str()), wanted),
        None => false,
    }
}

fn seen_before(store: &Store, wanted: &Vec<char>, host: &String, n: usize) -> (r: bool)
    requires
        n <= store.ssh_observations.len(),
    ensures
        r == host_seen(store@.ssh_observations, wanted@, host@, n as int),
{
    let ghost all = store@.ssh_observations;
    let name = chars_of(host.as_str());
    let mut j: usize = 0;
    while j < n
        invariant
            j <= n <= store.ssh_observations.len(),
            all == store@.ssh_observations,
            name@ == host@,
            !host_seen(all, wanted@, host@, j as int),
        decreases n - j,
    {
        let row = &store.ssh_observations[j];
        assert(all[j as int] == row@);
        if template_matches(&row.remote_command_template, wanted) && same_chars(
            &chars_of(row.host.as_str()),
            &name,
        ) {
            assert(runs_template(all[j as int], wanted@) && all[j as int].host == host@);
            return true;
        }
        assert forall|k: int|
            0 <= k < j + 1 && k < all.len() && runs_template(#[trigger] all[k], wanted@) implies all[k].host
            != host@ by {
            if k < j {
                assert(!host_seen(all, wanted@, host@, j as int));
            }
        }
        j += 1;
    }
    false
}

fn add_remote_insights(insights: &mut Vec<(String, String)>, store: &Store, template: &str)
    ensures
        insight_texts(final(insights)@) == insight_texts(old(insights)@) + remote_insights(
            template@,
            remote_runs(store@.ssh_observations, template@) as int,
            remote_successes(store@.ssh_observations, template@) as int,
            remote_failures(store@.ssh_observations, template@) as int,
            remote_hosts(
                store@.ssh_observations,
                template@,
                store@.ssh_observations.len() as int,
            ) as int,
        ),
{
    let wanted = chars_of(template);
    let ghost all = store@.ssh_observations;
    let mut total: usize = 0;
    let mut successes: usize = 0;
    let mut failures: usize = 0;
    let mut hosts: usize = 0;
    let mut i: usize = 0;
    assert(all.take(0) =~= Seq::<SshRowText>::empty());
    while i < store.ssh_observations.len()
        invariant
            i <= store.ssh_observations.len(),
            wanted@ == template@,
            all == store@.ssh_observations,
            total == remote_runs(all.take(i as int), template@),
            successes == remote_successes(all.take(i as int), template@),
            failures == remote_failures(all.take(i as int), template@),
            hosts == remote_hosts(all, template@, i as int),
            successes <= total <= i,
            failures <= total,
            hosts <= i,
        decreases store.ssh_observations.len() - i,
    {
        assert(all.take(i + 1).drop_last() =~= all.take(i as int));
        assert(all.take(i + 1).last() == store.ssh_observations@[i as int]@);
        let row = &store.ssh_observations[i];
        assert(all[i as int] == row@);
        if template_matches(&row.remote_command_template, &wanted) {
            total += 1;
            if is_word(&row.exit_type, "success") {
                successes += 1;
            }
            if is_word(&row.exit_type, "command_failed") {
                failures += 1;
            }
            if !seen_before(store, &wanted, &row.host, i) {
                hosts += 1;
            }
        }
        i += 1;
    }
    assert(all.take(store.ssh_observations.len() as int) =~= all);
    let ghost before = insight_texts(insights@);
    let ghost said = remote_insights(
        template@,
        total as int,
        successes as int,
        failures as int,
        hosts as int,
    );
    if total > 0 && failures > 0 && 2 * (successes as u128) < (total as u128) {
        let mut message = chars_of("Remote command '");
        extend_str(&mut message, template);
        extend_str(&mut message, "' fails often (");
        extend_count(&mut message, failures as u128);
        extend_str(&mut message, "/");
        extend_count(&mut message, total as u128);
        extend_str(&mut message, " across ");
        extend_count(&mut message, hosts as u128);
        extend_str(&mut message, " hosts).");
        push_insight(insights, "warning", &message);
        assert(insight_texts(insights@) =~= before + said);
    } else if total >= 3 && 10 * (successes as u128) > 9 * (total as u128) {
        let mut message = chars_of("Remote command '");
        extend_str(&mut message, template);
        extend_str(&mut message, "' reliable across ");
        extend_count(&mut message, hosts as u128);
        extend_str(&mut message, " hosts (");
        extend_count(&mut message, round_ratio(100 * (successes as u128), total as u128));
        extend_str(&mut message, "% success).");
        push_insight(insights, "info", &message);
        assert(insight_texts(insights@) =~= before + said);
    } else {
        assert(insight_texts(insights@) =~= before + said);
    }
}

/// What the record says of the host and of the remote command of an
/// `ssh` command.
pub fn get_ssh_insights(store: &Store, command: &str) -> (r: Vec<(String, String)>)
    ensures
        insight_texts(r@) == ssh_insights(store@.ssh_observations, command@),
{
    let mut insights: Vec<(String, String)> = Vec::new();
    assert(insight_texts(insights@) =~= Seq::<InsightText>::empty());
    match parse_ssh_command(command) {
        None => insights,
        Some(info) => {
            add_host_insights(&mut insights, store, info.host.as_str());
            let ghost first = insight_texts(insights@);
            match &info.remote_command {
                Some(remote) => {
                    let template = template_command(remote.as_str());
                    if !template.as_str().is_empty() {
                        add_remote_insights(&mut insights, store, template.as_str());
                    } else {
                        assert(insight_texts(insights@) =~= first + Seq::<InsightText>::empty());
                    }
                },
                None => {
                    assert(insight_texts(insights@) =~= first + Seq::<InsightText>::empty());
                },
            }
            assert(insight_texts(insights@) =~= ssh_insights(store@.ssh_observations, command@));
            insights
        },
    }
}

} // verus!
