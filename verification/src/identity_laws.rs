//! Which application a client is taken for, and how numbers and names are
//! written down.
use crate::cli;
use crate::desktop_apps;
use crate::desktop_apps::{FileModel, IdentityModel};
use crate::event_laws;
use crate::kind_laws;
use crate::relay;
use crate::schema::{ArgumentType, Direction};
use crate::session::SessionModel;
use crate::text;
use crate::wire;
use crate::wire::HEADER_LEN;
use vstd::prelude::*;
use vstd::utf8::encode_utf8;

verus! {

/// A file's id and its name say the same: the name is the id with the extension
/// behind it, and only a name of that form has an id.
pub proof fn lemma_id_and_file_name(id: Seq<char>, file_name: Seq<char>)
    ensures
        desktop_apps::desktop_id(file_name) == Some(id) <==> file_name == id + ".desktop"@
            && id.len() > 0,
{
    let ext = ".desktop"@;
    reveal_strlit(".desktop");
    assert(ext.len() == 8);
    if desktop_apps::desktop_id(file_name) == Some(id) {
        assert(file_name =~= file_name.take(file_name.len() - 8) + file_name.skip(
            file_name.len() - 8,
        ));
    }
    if file_name == id + ext && id.len() > 0 {
        assert(file_name.skip(file_name.len() - 8) =~= ext);
        assert(file_name.take(file_name.len() - 8) =~= id);
    }
}

/// Whether a file counts for a program: it is a `.desktop` file that runs it.
pub open spec fn stands_for(file: FileModel, binary: Seq<char>) -> bool {
    desktop_apps::desktop_id(file.file_name) is Some && desktop_apps::file_binary(file) == Some(
        binary,
    )
}

/// An earlier match stays the match when more is listed behind it, and the
/// first one listed is the match where there was none.
proof fn lemma_resolved_push(
    list: Seq<(Seq<char>, Seq<char>)>,
    entry: (Seq<char>, Seq<char>),
    binary: Seq<char>,
    from: int,
)
    requires
        0 <= from <= list.len(),
    ensures
        ({
            let before = desktop_apps::resolved_from(list, binary, from);
            desktop_apps::resolved_from(list.push(entry), binary, from) == if before is Some {
                before
            } else if entry.0 == binary {
                Some(entry.1)
            } else {
                None
            }
        }),
    decreases list.len() - from,
{
    reveal_with_fuel(desktop_apps::resolved_from, 2);
    if from < list.len() {
        lemma_resolved_push(list, entry, binary, from + 1);
    }
}

/// A program belongs to the first file that runs it, in the order in which the
/// directories are searched, and to none where no file runs it.
pub proof fn lemma_first_file_counts(files: Seq<FileModel>, n: int, binary: Seq<char>, k: int)
    requires
        0 <= n <= files.len(),
        0 <= k <= n,
        forall|j: int| 0 <= j < k ==> !stands_for(#[trigger] files[j], binary),
        k < n ==> stands_for(files[k], binary),
    ensures
        desktop_apps::index_of(files, n).resolve(binary) == if k < n {
            desktop_apps::desktop_id(files[k].file_name)
        } else {
            None
        },
    decreases n,
{
    if n > 0 {
        let before = desktop_apps::index_of(files, n - 1);
        let file = files[n - 1];
        if k < n {
            lemma_first_file_counts(files, n - 1, binary, k);
        } else {
            lemma_first_file_counts(files, n - 1, binary, n - 1);
            assert(!stands_for(files[n - 1], binary));
        }
        if desktop_apps::desktop_id(file.file_name) is Some && desktop_apps::file_binary(
            file,
        ) is Some {
            lemma_resolved_push(
                before.by_binary,
                (
                    desktop_apps::file_binary(file)->0,
                    desktop_apps::desktop_id(file.file_name)->0,
                ),
                binary,
                0,
            );
        }
    }
}

/// The installed ids are those of the `.desktop` files, no others, whether or
/// not a file can be read.
pub proof fn lemma_installed_ids(files: Seq<FileModel>, n: int, id: Seq<char>)
    requires
        0 <= n <= files.len(),
    ensures
        desktop_apps::index_of(files, n).ids.contains(id) <==> exists|k: int|
            0 <= k < n && desktop_apps::desktop_id((#[trigger] files[k]).file_name) == Some(id),
    decreases n,
{
    if n > 0 {
        lemma_installed_ids(files, n - 1, id);
        let before = desktop_apps::index_of(files, n - 1).ids;
        let now = desktop_apps::index_of(files, n).ids;
        if let Some(last) = desktop_apps::desktop_id(files[n - 1].file_name) {
            assert(now == before.push(last));
            assert(now[before.len() as int] == last);
            if before.contains(id) {
                let i = choose|i: int| 0 <= i < before.len() && before[i] == id;
                assert(now[i] == id);
            }
            if now.contains(id) && last != id {
                let i = choose|i: int| 0 <= i < now.len() && now[i] == id;
                assert(before[i] == id);
            }
        }
        if exists|k: int|
            0 <= k < n && desktop_apps::desktop_id((#[trigger] files[k]).file_name) == Some(id) {
            let k = choose|k: int|
                0 <= k < n && desktop_apps::desktop_id((#[trigger] files[k]).file_name) == Some(id);
            if k < n - 1 {
                assert(before.contains(id));
            }
        }
    }
}

/// A word runs up to the first white space behind it.
proof fn lemma_word_end(s: Seq<char>, from: int, to: int)
    requires
        0 <= from <= to <= s.len(),
        forall|i: int| from <= i < to ==> !text::is_space(#[trigger] s[i]),
        to < s.len() ==> text::is_space(s[to]),
    ensures
        desktop_apps::word_end(s, from) == to,
    decreases to - from,
{
    if from < to {
        lemma_word_end(s, from + 1, to);
    }
}

/// A path component starts behind the last slash.
proof fn lemma_component(s: Seq<char>, start: int, end: int)
    requires
        0 <= start <= end <= s.len(),
        forall|i: int| start <= i < end ==> #[trigger] s[i] != '/',
        start > 0 ==> s[start - 1] == '/',
    ensures
        desktop_apps::component_start(s, end) == start,
    decreases end - start,
{
    if start < end {
        lemma_component(s, start, end - 1);
    }
}

/// The program that a command runs is the name behind the last slash of its
/// first word, whatever the directory and the arguments.
pub proof fn lemma_program_is_the_last_component(
    dir: Seq<char>,
    name: Seq<char>,
    arguments: Seq<char>,
)
    requires
        name.len() > 0,
        name != "."@,
        name != ".."@,
        forall|i: int| 0 <= i < name.len() ==> #[trigger] name[i] != '/' && !text::is_space(name[i]),
        forall|i: int| 0 <= i < dir.len() ==> !text::is_space(#[trigger] dir[i]),
        dir.len() > 0 ==> dir.last() == '/',
        arguments.len() > 0 ==> text::is_space(arguments[0]),
    ensures
        desktop_apps::binary_of(dir + name + arguments) == Some(name),
{
    let exec = dir + name + arguments;
    let word = dir + name;
    let n = word.len() as int;
    assert(!text::is_space(exec[0])) by {
        if dir.len() > 0 {
            assert(exec[0] == dir[0]);
        } else {
            assert(exec[0] == name[0]);
        }
    }
    assert forall|i: int| 0 <= i < n implies !text::is_space(#[trigger] exec[i]) by {
        if i < dir.len() {
            assert(exec[i] == dir[i]);
        } else {
            assert(exec[i] == name[i - dir.len()]);
        }
    }
    assert(n < exec.len() ==> exec[n] == arguments[0]);
    lemma_word_end(exec, 0, n);
    assert(exec.subrange(0, n) =~= word);
    let start = dir.len() as int;
    assert forall|i: int| start <= i < n implies #[trigger] word[i] != '/' by {
        assert(word[i] == name[i - start]);
    }
    assert(start > 0 ==> word[start - 1] == dir.last());
    lemma_component(word, start, n);
    assert(word.subrange(start, n) =~= name);
}

/// An application id is put right exactly where it is not installed and the
/// client's program is: then it is the id of that program's file that is sent,
/// on the same object by the same request.  Anything else is left alone.
pub proof fn lemma_application_id_is_put_right<F>(
    s: SessionModel<F>,
    identity: IdentityModel,
    msg: Seq<u8>,
    toplevel: u32,
    app_id: Seq<char>,
    end: int,
)
    requires
        event_laws::says(
            s,
            Direction::ClientToHost,
            msg,
            toplevel,
            "xdg_toplevel"@,
            "set_app_id"@,
            seq![ArgumentType::Str],
        ),
        wire::str_opt(msg.skip(8), 0) == Some((app_id, end)),
        identity.binary_name is Some ==> (identity.index.resolve(identity.binary_name->0)
            matches Some(id) ==> encode_utf8(id).len() < 0x1_0000 - 32),
    ensures
        ({
            let new = relay::corrected(s, identity, Direction::ClientToHost, msg);
            let known = if identity.binary_name is Some {
                identity.index.resolve(identity.binary_name->0)
            } else {
                None
            };
            if !identity.index.ids.contains(app_id) && known is Some {
                &&& wire::is_message(new, toplevel, wire::header_of(msg)->0.opcode)
                &&& wire::str_opt(new.skip(8), 0) == Some((known->0, new.len() - 8))
            } else {
                new == msg
            }
        }),
{
    kind_laws::lemma_request_names("xdg_toplevel"@, "set_app_id"@);
    if let Some(binary) = identity.binary_name {
        if let Some(id) = identity.index.resolve(binary) {
            crate::clipboard_laws::lemma_text_message(
                toplevel,
                wire::header_of(msg)->0.opcode,
                id,
            );
            wire::lemma_str_bytes_len(id);
        }
    }
}

/// Nothing but a client's own application id is ever put right.
pub proof fn lemma_nothing_else_is_put_right<F>(
    s: SessionModel<F>,
    identity: IdentityModel,
    direction: Direction,
    msg: Seq<u8>,
)
    requires
        HEADER_LEN <= msg.len(),
        relay::corrected(s, identity, direction, msg) != msg,
    ensures
        direction is ClientToHost,
        s.objects.interface(wire::word_at(msg, 0)) is Some,
        s.objects.interface(wire::word_at(msg, 0))->0.name == "xdg_toplevel"@,
        wire::header_of(msg)->0.opcode < s.objects.interface(
            wire::word_at(msg, 0),
        )->0.requests.len(),
        s.objects.interface(wire::word_at(msg, 0))->0.requests[wire::header_of(
            msg,
        )->0.opcode as int].name == "set_app_id"@,
{
    let interface = s.objects.interface(wire::word_at(msg, 0))->0;
    let desc = interface.requests[wire::header_of(msg)->0.opcode as int];
    kind_laws::lemma_request_names(interface.name, desc.name);
}

/// The text of an error reads as what the compositor wrote.
pub proof fn lemma_error_text_is_read(object: u32, code: u32, message: Seq<char>)
    requires
        encode_utf8(message).len() < u32::MAX,
    ensures
        relay::error_text(
            wire::word_bytes(object) + wire::word_bytes(code) + wire::str_bytes(message),
        ) == message,
        wire::word_at(
            wire::word_bytes(object) + wire::word_bytes(code) + wire::str_bytes(message),
            0,
        ) == object,
        wire::word_at(
            wire::word_bytes(object) + wire::word_bytes(code) + wire::str_bytes(message),
            4,
        ) == code,
{
    let before = wire::word_bytes(object) + wire::word_bytes(code);
    let p = before + wire::str_bytes(message);
    let none = Seq::<u8>::empty();
    wire::lemma_words_read(object, code, 0, 0);
    assert forall|at: int| 0 <= at <= 4 implies #[trigger] wire::word_at(p, at) == wire::word_at(
        before,
        at,
    ) by {}
    wire::lemma_str_appended(before, message, none);
    assert(p + none =~= p);
    wire::lemma_block_appended(before, encode_utf8(message).push(0), none);
}

/// What a row of decimal digits is worth.
pub open spec fn worth(digits: Seq<char>) -> int
    decreases digits.len(),
{
    if digits.len() == 0 {
        0
    } else {
        worth(digits.drop_last()) * 10 + (digits.last() as int - '0' as int)
    }
}

/// A number is written down in decimal digits that are worth it, without zeros
/// in front.
pub proof fn lemma_decimal_is_worth_its_number(n: nat)
    ensures
        worth(text::decimal(n)) == n,
        text::decimal(n).len() > 0,
        forall|i: int|
            0 <= i < text::decimal(n).len() ==> '0' <= #[trigger] text::decimal(n)[i] <= '9',
        n > 0 ==> text::decimal(n)[0] != '0',
    decreases n,
{
    reveal_with_fuel(worth, 2);
    let d = text::decimal(n);
    if n < 10 {
        assert(d.drop_last() =~= Seq::empty());
        assert(d[0] as int == 48 + n);
    } else {
        lemma_decimal_is_worth_its_number(n / 10);
        let last = text::digit((n % 10) as int);
        assert(last as int == 48 + n % 10);
        assert(d.drop_last() =~= text::decimal(n / 10));
        assert(d.last() == last);
        assert(d[0] == text::decimal(n / 10)[0]);
    }
}

/// Zeros in front fill a number up to the width and no further, and the number
/// itself stands behind them.
pub proof fn lemma_padding_is_zeros(digits: Seq<char>, width: nat)
    ensures
        ({
            let padded = text::zero_padded(digits, width);
            let n = padded.len() - digits.len();
            &&& padded.len() == if digits.len() < width {
                width
            } else {
                digits.len()
            }
            &&& padded.skip(n) == digits
            &&& forall|i: int| 0 <= i < n ==> #[trigger] padded[i] == '0'
        }),
    decreases width - digits.len(),
{
    if digits.len() < width {
        let longer = seq!['0'] + digits;
        lemma_padding_is_zeros(longer, width);
        let padded = text::zero_padded(digits, width);
        let n = padded.len() - longer.len();
        assert(padded.skip(n + 1) =~= padded.skip(n).skip(1));
        assert(longer.skip(1) =~= digits);
        assert(padded[n] == padded.skip(n)[0]);
    } else {
        assert(digits.skip(0) =~= digits);
    }
}

/// Each value that is found on a command line goes to the setting of the flag
/// that it was found for.
pub proof fn lemma_flags_go_to_their_settings(values: Seq<Option<Seq<char>>>, k: int)
    requires
        values.len() == cli::flag_names().len(),
        0 <= k < values.len(),
    ensures
        cli::flag_names()[k] == "display"@ ==> cli::settings_of(values).display == values[k],
        cli::flag_names()[k] == "record"@ ==> cli::settings_of(values).record == values[k],
        cli::flag_names()[k] == "log-level"@ ==> cli::settings_of(values).log_level == values[k],
        cli::flag_names()[k] == "listen"@ ==> cli::settings_of(values).listen == values[k],
{
    reveal_strlit("display");
    reveal_strlit("record");
    reveal_strlit("log-level");
    reveal_strlit("listen");
    assert("display"@.len() == 7 && "record"@.len() == 6 && "log-level"@.len() == 9
        && "listen"@.len() == 6);
    assert("record"@[0] != "listen"@[0]);
}

/// Whether the line at `at` heads a group.
pub open spec fn heads_group(s: Seq<char>, at: int) -> bool {
    text::starts_line(s, at) && at < s.len() && desktop_apps::is_group(
        desktop_apps::trimmed_line(s, at),
    )
}

/// Whether the line at `at` heads the main group.
pub open spec fn heads_main_group(s: Seq<char>, at: int) -> bool {
    heads_group(s, at) && desktop_apps::trimmed_line(s, at) == "[Desktop Entry]"@
}

/// Whether the line at `at` stands in the main group: of the groups that are
/// headed before it, the last is the main one.
pub open spec fn in_main_group(s: Seq<char>, at: int) -> bool {
    exists|head: int|
        0 <= head < at && #[trigger] heads_main_group(s, head) && forall|other: int|
            head < other < at ==> !(#[trigger] heads_group(s, other))
}

/// Whether the line at `at` says what the main group runs.
pub open spec fn says_exec(s: Seq<char>, at: int) -> bool {
    &&& text::starts_line(s, at)
    &&& at < s.len()
    &&& !heads_group(s, at)
    &&& in_main_group(s, at)
    &&& desktop_apps::trimmed_line(s, at).len() >= 5
    &&& desktop_apps::trimmed_line(s, at).take(5) == "Exec="@
}

/// What stands between the brackets tells the main group from others.
proof fn lemma_main_header(line: Seq<char>)
    requires
        desktop_apps::is_group(line),
    ensures
        line.subrange(1, line.len() - 1) == "Desktop Entry"@ <==> line == "[Desktop Entry]"@,
{
    reveal_strlit("Desktop Entry");
    reveal_strlit("[Desktop Entry]");
    let full = "[Desktop Entry]"@;
    assert(full.len() == 15 && "Desktop Entry"@.len() == 13);
    assert(full.subrange(1, 14) =~= "Desktop Entry"@);
    if line.subrange(1, line.len() - 1) == "Desktop Entry"@ {
        assert(line.len() == 15);
        assert forall|i: int| 0 <= i < 15 implies line[i] == full[i] by {
            if 1 <= i < 14 {
                assert(line[i] == line.subrange(1, 14)[i - 1]);
                assert(full[i] == full.subrange(1, 14)[i - 1]);
            }
        }
        assert(line =~= full);
    }
}

/// From one line to the next: whether the main group goes on.
proof fn lemma_next_line(s: Seq<char>, from: int)
    requires
        text::starts_line(s, from),
        from < s.len(),
    ensures
        ({
            let line = desktop_apps::trimmed_line(s, from);
            let next = text::line_end(s, from) + 1;
            &&& next > from
            &&& next <= s.len() ==> text::starts_line(s, next)
            &&& in_main_group(s, next) == if desktop_apps::is_group(line) {
                line.subrange(1, line.len() - 1) == "Desktop Entry"@
            } else {
                in_main_group(s, from)
            }
        }),
{
    let line = desktop_apps::trimmed_line(s, from);
    let next = text::line_end(s, from) + 1;
    text::lemma_line_reaches(s, from);
    assert forall|p: int| from < p < next implies !(#[trigger] heads_group(s, p)) by {
        if text::starts_line(s, p) {
            assert(p > text::line_end(s, from));
        }
    }
    if desktop_apps::is_group(line) {
        lemma_main_header(line);
        assert(heads_group(s, from));
        if heads_main_group(s, from) {
            assert(in_main_group(s, next));
        } else if in_main_group(s, next) {
            let head = choose|head: int|
                0 <= head < next && #[trigger] heads_main_group(s, head) && forall|other: int|
                    head < other < next ==> !(#[trigger] heads_group(s, other));
            assert(heads_group(s, head));
            assert(head != from);
            assert(head < from);
        }
    } else {
        assert(!heads_group(s, from));
        if in_main_group(s, from) {
            let head = choose|head: int|
                0 <= head < from && #[trigger] heads_main_group(s, head) && forall|other: int|
                    head < other < from ==> !(#[trigger] heads_group(s, other));
            assert forall|other: int| head < other < next implies !(#[trigger] heads_group(
                s,
                other,
            )) by {}
            assert(heads_main_group(s, head));
        }
        if in_main_group(s, next) {
            let head = choose|head: int|
                0 <= head < next && #[trigger] heads_main_group(s, head) && forall|other: int|
                    head < other < next ==> !(#[trigger] heads_group(s, other));
            assert(heads_group(s, head));
            assert(head < from);
            assert(heads_main_group(s, head));
        }
    }
}

proof fn lemma_exec_from(s: Seq<char>, from: int)
    requires
        text::starts_line(s, from),
    ensures
        match desktop_apps::exec_from(s, from, in_main_group(s, from)) {
            Some(exec) => exists|at: int|
                from <= at && #[trigger] says_exec(s, at) && exec == desktop_apps::trimmed_line(
                    s,
                    at,
                ).skip(5) && forall|p: int| from <= p < at ==> !(#[trigger] says_exec(s, p)),
            None => forall|p: int| from <= p ==> !(#[trigger] says_exec(s, p)),
        },
    decreases s.len() - from,
{
    if from < s.len() {
        let line = desktop_apps::trimmed_line(s, from);
        let next = text::line_end(s, from) + 1;
        lemma_next_line(s, from);
        text::lemma_line_reaches(s, from);
        assert forall|p: int| from < p < next implies !(#[trigger] says_exec(s, p)) by {
            if text::starts_line(s, p) {
                assert(p > text::line_end(s, from));
            }
        }
        if says_exec(s, from) {
            assert(desktop_apps::exec_from(s, from, in_main_group(s, from)) == Some(line.skip(5)));
        } else {
            if next <= s.len() {
                lemma_exec_from(s, next);
            }
            assert(desktop_apps::exec_from(s, from, in_main_group(s, from))
                == desktop_apps::exec_from(s, next, in_main_group(s, next)));
            if let Some(exec) = desktop_apps::exec_from(s, next, in_main_group(s, next)) {
                let at = choose|at: int|
                    next <= at && #[trigger] says_exec(s, at) && exec == desktop_apps::trimmed_line(
                        s,
                        at,
                    ).skip(5) && forall|p: int| next <= p < at ==> !(#[trigger] says_exec(s, p));
                assert forall|p: int| from <= p < at implies !(#[trigger] says_exec(s, p)) by {}
            } else {
                assert forall|p: int| from <= p implies !(#[trigger] says_exec(s, p)) by {}
            }
        }
    }
}

/// What a file runs is said by the first `Exec=` line of its main group; the
/// lines of other groups do not count, and where there is no such line the file
/// runs nothing.
pub proof fn lemma_main_group_decides(content: Seq<char>)
    ensures
        match desktop_apps::main_exec(content) {
            Some(exec) => exists|at: int|
                0 <= at && #[trigger] says_exec(content, at) && exec == desktop_apps::trimmed_line(
                    content,
                    at,
                ).skip(5) && forall|p: int| 0 <= p < at ==> !(#[trigger] says_exec(content, p)),
            None => forall|p: int| 0 <= p ==> !(#[trigger] says_exec(content, p)),
        },
{
    assert(!in_main_group(content, 0));
    lemma_exec_from(content, 0);
}

} // verus!
