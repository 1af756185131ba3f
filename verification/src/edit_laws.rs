//! What the form that edits a profile promises: it shows the profile as it is, so that saving it
//! untouched changes nothing.

use vstd::prelude::*;

use crate::config::{key_with_id, AuthKeyView, ProfileView};
use crate::form_laws::{lemma_profile_at, port_at};
use crate::forms::{profile_name_taken, profile_with_id, server_user, ProfileFormView};
use crate::forwards::port_field;
use crate::naming::{law_decimal_reads_back, lemma_trim_end};
use crate::ports::{law_port_owner_iff_used, owner_of_port, uses_port};
use crate::records::{law_position, position, saved, HasId};
use crate::roster::valid_name;
use crate::text::{
    decimal, filled, is_digit, is_white_space, join, lemma_split_nonempty, list_entries, occurs,
    occurs_at, single_spaced, split_on, trim_start, trimmed, u16_of_text, words,
};

verus! {

/// Whether a text is not empty and has no white space at either end.
pub open spec fn is_tidy(s: Seq<char>) -> bool {
    s.len() > 0 && !is_white_space(s[0]) && !is_white_space(s.last())
}

/// Whether a text can stand in a list: it is tidy and holds no comma.
pub open spec fn is_list_entry(s: Seq<char>) -> bool {
    is_tidy(s) && !s.contains(',')
}

/// Whether a profile is as the form leaves one: tidy texts, ports that can be used, a key that is
/// there, and a relay token only beside a relay.
pub open spec fn is_complete(p: ProfileView, keys: Seq<AuthKeyView>) -> bool {
    &&& is_tidy(p.server_node_id)
    &&& key_with_id(keys, p.auth_key_id) is Some
    &&& p.socks_port != Some(0u16)
    &&& p.http_port != Some(0u16)
    &&& forall|i: int| 0 <= i < p.relay_urls.len() ==> is_list_entry(#[trigger] p.relay_urls[i])
    &&& p.relay_auth_token matches Some(t) ==> is_tidy(t) && p.relay_urls.len() > 0
}

proof fn lemma_tidy_stays(s: Seq<char>)
    requires
        s.len() > 0 ==> is_tidy(s),
    ensures
        trimmed(s) == s,
{
}

proof fn lemma_trim_start(s: Seq<char>)
    ensures
        trim_start(s).len() <= s.len(),
        trim_start(s) == s.skip(s.len() - trim_start(s).len()),
        trim_start(s).len() > 0 ==> !is_white_space(trim_start(s)[0]),
    decreases s.len(),
{
    if s.len() > 0 && is_white_space(s[0]) {
        let rest = s.drop_first();
        lemma_trim_start(rest);
        let t = trim_start(rest);
        assert(rest.skip(rest.len() - t.len()) == s.skip(s.len() - t.len()));
    } else {
        assert(s.skip(0) == s);
    }
}

/// A trimmed text is tidy unless it is empty, and holds nothing new.
proof fn lemma_trimmed_is_tidy(s: Seq<char>)
    ensures
        trimmed(s).len() > 0 ==> is_tidy(trimmed(s)),
        forall|c: char| trimmed(s).contains(c) ==> #[trigger] s.contains(c),
{
    let a = trim_start(s);
    let b = trimmed(s);
    lemma_trim_start(s);
    lemma_trim_end(a);
    if b.len() > 0 {
        assert(b[0] == a[0]);
    }
    assert forall|c: char| b.contains(c) implies #[trigger] s.contains(c) by {
        let k = b.index_of(c);
        assert(a[k] == c);
        assert(s[s.len() - a.len() + k] == c);
    }
}

/// A well-formed name has its words separated by single spaces already. More generally so has the
/// start of one, but for a space at its end.
proof fn lemma_single_spaced(s: Seq<char>)
    requires
        s.len() > 0,
        s[0] != ' ',
        forall|i: int| 0 <= i < s.len() && is_white_space(#[trigger] s[i]) ==> s[i] == ' ',
        forall|i: int, j: int|
            0 <= i < s.len() && j == i + 1 && j < s.len() ==> !(#[trigger] s[i] == ' '
                && #[trigger] s[j] == ' '),
    ensures
        words(s).len() > 0,
        single_spaced(s) == (if s.last() == ' ' {
            s.drop_last()
        } else {
            s
        }),
    decreases s.len(),
{
    let init = s.drop_last();
    let w = words(s);
    let sep = seq![' '];
    if init.len() == 0 {
        assert(!is_white_space(s[0]));
        assert(s.last() == s[0]);
        assert(words(init) == Seq::<Seq<char>>::empty());
        assert(w == seq![seq![s[0]]]);
        assert(join(w, sep) == s);
    } else {
        assert forall|i: int| 0 <= i < init.len() && is_white_space(#[trigger] init[i]) implies
            init[i] == ' ' by {
            assert(init[i] == s[i]);
        }
        assert forall|i: int, j: int| 0 <= i < init.len() && j == i + 1 && j < init.len() implies !(
        #[trigger] init[i] == ' ' && #[trigger] init[j] == ' ') by {
            assert(init[i] == s[i] && init[j] == s[j]);
        }
        lemma_single_spaced(init);
        let before = words(init);
        assert(s[s.len() - 2] == init.last());
        assert(s[s.len() - 1] == s.last());
        if is_white_space(s.last()) {
            assert(init.last() != ' ');
        } else if !is_white_space(init.last()) {
            let grown = before.last().push(s.last());
            assert(w == before.drop_last().push(grown));
            assert(w.drop_last() == before.drop_last());
            assert(init.last() != ' ');
            assert(join(before, sep) == init);
            if before.len() == 1 {
                assert(join(w, sep) == grown);
                assert(before.last() == init);
                assert(join(w, sep) == s);
            } else {
                assert(join(w, sep) == join(before.drop_last(), sep) + sep + grown);
                assert(join(w, sep) == join(before, sep).push(s.last()));
                assert(join(w, sep) == s);
            }
        } else {
            assert(init.last() == ' ');
            assert(w == before.push(seq![s.last()]));
            assert(w.drop_last() == before);
            assert(join(w, sep) == join(before, sep) + sep + seq![s.last()]);
            assert(join(w, sep) == init.drop_last().push(' ').push(s.last()));
            assert(init == init.drop_last().push(' '));
            assert(join(w, sep) == s);
        }
    }
}

/// A well-formed name has its words separated by single spaces already.
pub proof fn law_valid_name_is_unchanged(s: Seq<char>)
    requires
        valid_name(s),
    ensures
        single_spaced(s) == s,
{
    reveal_strlit("  ");
    assert forall|i: int, j: int| 0 <= i < s.len() && j == i + 1 && j < s.len() implies !(
    #[trigger] s[i] == ' ' && #[trigger] s[j] == ' ') by {
        if s[i] == ' ' && s[j] == ' ' {
            assert(s.subrange(i, i + 2) == "  "@);
            assert(occurs_at("  "@, s, i));
            assert(occurs("  "@, s));
        }
    }
    lemma_single_spaced(s);
}

/// A text without separator extends the last piece.
proof fn lemma_split_extends(a: Seq<char>, b: Seq<char>, sep: char)
    requires
        !b.contains(sep),
    ensures
        split_on(a, sep).len() > 0,
        split_on(a + b, sep) == split_on(a, sep).drop_last().push(split_on(a, sep).last() + b),
    decreases b.len(),
{
    lemma_split_nonempty(a, sep);
    let pieces = split_on(a, sep);
    if b.len() == 0 {
        assert(a + b == a);
        assert(pieces.last() + b == pieces.last());
        assert(pieces.drop_last().push(pieces.last()) == pieces);
    } else {
        let init = b.drop_last();
        assert(b[b.len() - 1] == b.last());
        assert forall|k: int| 0 <= k < init.len() implies init[k] != sep by {
            assert(b[k] == init[k]);
        }
        lemma_split_extends(a, init, sep);
        assert((a + b).drop_last() == a + init);
        assert((a + b).last() == b.last());
        let before = split_on(a + init, sep);
        assert(before.drop_last() == pieces.drop_last());
        assert((pieces.last() + init).push(b.last()) == pieces.last() + b);
    }
}

/// The piece of a joined list at `i`: an entry, behind a space unless it is the first.
spec fn piece(entries: Seq<Seq<char>>, i: int) -> Seq<char> {
    if i == 0 {
        entries[i]
    } else {
        seq![' '] + entries[i]
    }
}

proof fn lemma_split_of_joined(entries: Seq<Seq<char>>)
    requires
        entries.len() > 0,
        forall|i: int| 0 <= i < entries.len() ==> is_list_entry(#[trigger] entries[i]),
    ensures
        split_on(join(entries, ", "@), ',') == Seq::new(
            entries.len(),
            |i: int| piece(entries, i),
        ),
    decreases entries.len(),
{
    reveal_strlit(", ");
    let last = entries.last();
    assert(is_list_entry(entries[entries.len() - 1]));
    let joined = join(entries, ", "@);
    if entries.len() == 1 {
        let none = Seq::<char>::empty();
        lemma_split_extends(none, last, ',');
        assert(none + last == joined);
        assert(split_on(none, ',') == seq![none]);
        assert(split_on(joined, ',') == Seq::new(entries.len(), |i: int| piece(entries, i)));
    } else {
        let init = entries.drop_last();
        assert forall|i: int| 0 <= i < init.len() implies is_list_entry(#[trigger] init[i]) by {
            assert(init[i] == entries[i]);
        }
        lemma_split_of_joined(init);
        let head = join(init, ", "@);
        let comma = head.push(',');
        let tail = seq![' '] + last;
        assert(joined == comma + tail);
        assert(comma.drop_last() == head);
        assert(split_on(comma, ',') == split_on(head, ',').push(Seq::empty()));
        assert(!tail.contains(',')) by {
            assert forall|k: int| 0 <= k < tail.len() implies tail[k] != ',' by {
                if k > 0 {
                    assert(tail[k] == last[k - 1]);
                    assert(last.contains(last[k - 1]));
                }
            }
        }
        lemma_split_extends(comma, tail, ',');
        assert(Seq::<char>::empty() + tail == tail);
        let all = Seq::new(entries.len(), |i: int| piece(entries, i));
        assert(split_on(head, ',').push(Seq::empty()).drop_last() == split_on(head, ','));
        assert(split_on(joined, ',') == split_on(head, ',').push(tail));
        assert forall|i: int| 0 <= i < all.len() implies all[i] == split_on(joined, ',')[i] by {
            if i < init.len() {
                assert(piece(init, i) == piece(entries, i));
            }
        }
        assert(split_on(joined, ',') == all);
    }
}

proof fn lemma_filled_pieces(entries: Seq<Seq<char>>, n: nat)
    requires
        n <= entries.len(),
        forall|i: int| 0 <= i < entries.len() ==> is_list_entry(#[trigger] entries[i]),
    ensures
        filled(Seq::new(n, |i: int| piece(entries, i))) == entries.take(n as int),
    decreases n,
{
    let pieces = Seq::new(n, |i: int| piece(entries, i));
    if n > 0 {
        let before = Seq::new((n - 1) as nat, |i: int| piece(entries, i));
        lemma_filled_pieces(entries, (n - 1) as nat);
        assert(pieces.drop_last() == before);
        let e = entries[n - 1];
        assert(is_list_entry(e));
        lemma_tidy_stays(e);
        if n > 1 {
            let p = seq![' '] + e;
            assert(p.drop_first() == e);
            reveal_with_fuel(trim_start, 3);
            assert(trimmed(p) == e);
        }
        assert(trimmed(pieces.last()) == e);
        assert(entries.take(n as int) == entries.take(n - 1).push(e));
    } else {
        assert(entries.take(0) == Seq::<Seq<char>>::empty());
    }
}

/// Entries that were joined to one text are read from it again.
pub proof fn law_joined_list_reads_back(entries: Seq<Seq<char>>)
    requires
        forall|i: int| 0 <= i < entries.len() ==> is_list_entry(#[trigger] entries[i]),
    ensures
        list_entries(join(entries, ", "@), ',') == entries,
{
    if entries.len() == 0 {
        reveal_with_fuel(filled, 2);
        assert(split_on(Seq::<char>::empty(), ',') == seq![Seq::<char>::empty()]);
        assert(seq![Seq::<char>::empty()].drop_last() == Seq::<Seq<char>>::empty());
        assert(list_entries(join(entries, ", "@), ',') == entries);
    } else {
        lemma_split_of_joined(entries);
        lemma_filled_pieces(entries, entries.len());
        assert(entries.take(entries.len() as int) == entries);
    }
}

/// A port that is shown in a field is read from it again.
pub proof fn law_shown_port_reads_back(port: u16, field: Seq<char>)
    requires
        port != 0,
    ensures
        port_field(decimal(port as nat), field) == Ok::<u16, Seq<char>>(port),
{
    let text = decimal(port as nat);
    law_decimal_reads_back(port as nat);
    assert(is_digit(text[0]));
    assert(is_digit(text[text.len() - 1]));
    lemma_tidy_stays(text);
    assert(u16_of_text(text) == Some(port));
}

/// Whether no other profile has the id, the name or the server of the one at `i`.
pub open spec fn stands_alone(profiles: Seq<ProfileView>, i: int) -> bool {
    forall|j: int|
        0 <= j < profiles.len() && j != i ==> (#[trigger] profiles[j]).id != profiles[i].id
            && profiles[j].name != profiles[i].name && profiles[j].server_node_id
            != profiles[i].server_node_id
}

/// Whether the ports of the proxies of the profile at `i` are used in no other place.
pub open spec fn own_proxies_apart(profiles: Seq<ProfileView>, i: int) -> bool {
    forall|k: int, j: int, l: int|
        k < 0 && 0 <= j < profiles.len() && (i != j || k != l) && port_at(profiles[i], k) is Some
            ==> #[trigger] port_at(profiles[i], k) != #[trigger] port_at(profiles[j], l)
}

/// A proxy port that is used in no other place has no other owner.
proof fn lemma_own_port(profiles: Seq<ProfileView>, i: int, k: int)
    requires
        stands_alone(profiles, i),
        own_proxies_apart(profiles, i),
        0 <= i < profiles.len(),
        k < 0,
        port_at(profiles[i], k) is Some,
    ensures
        owner_of_port(profiles, port_at(profiles[i], k)->0, Some(profiles[i].id), None) is None,
{
    let port = port_at(profiles[i], k)->0;
    let own = Some(profiles[i].id);
    law_port_owner_iff_used(profiles, port, own, None);
    assert forall|j: int| 0 <= j < profiles.len() implies !uses_port(
        #[trigger] profiles[j],
        port,
        own,
        None,
    ) by {
        if Some(profiles[j].id) != own {
            assert(port_at(profiles[i], k) != port_at(profiles[j], -2));
            assert(port_at(profiles[i], k) != port_at(profiles[j], -1));
        }
        assert forall|l: int| 0 <= l < profiles[j].forwards.len() implies #[trigger]
            profiles[j].forwards[l].local_port != port by {
            assert(port_at(profiles[i], k) != port_at(profiles[j], l));
        }
    }
}

proof fn lemma_no_other_server_user(profiles: Seq<ProfileView>, server: Seq<char>, own: Seq<char>)
    requires
        forall|j: int|
            0 <= j < profiles.len() && (#[trigger] profiles[j]).id != own
                ==> profiles[j].server_node_id != server,
    ensures
        server_user(profiles, server, Some(own)) is None,
    decreases profiles.len(),
{
    if profiles.len() > 0 {
        let rest = profiles.drop_first();
        assert(profiles[0].id != own ==> profiles[0].server_node_id != server);
        assert forall|j: int| 0 <= j < rest.len() && (#[trigger] rest[j]).id != own implies
            rest[j].server_node_id != server by {
            assert(profiles[j + 1].id != own);
        }
        lemma_no_other_server_user(rest, server, own);
    }
}

proof fn lemma_filled_is_tidy(parts: Seq<Seq<char>>, sep: char)
    requires
        forall|i: int| 0 <= i < parts.len() ==> !(#[trigger] parts[i]).contains(sep),
    ensures
        forall|i: int|
            0 <= i < filled(parts).len() ==> is_tidy(#[trigger] filled(parts)[i]) && !filled(
                parts,
            )[i].contains(sep),
    decreases parts.len(),
{
    if parts.len() > 0 {
        let front = parts.drop_last();
        assert forall|i: int| 0 <= i < front.len() implies !(#[trigger] front[i]).contains(sep) by {
            assert(!parts[i].contains(sep));
        }
        lemma_filled_is_tidy(front, sep);
        lemma_trimmed_is_tidy(parts.last());
        assert(!parts[parts.len() - 1].contains(sep));
        let before = filled(front);
        assert forall|i: int| 0 <= i < filled(parts).len() implies is_tidy(
            #[trigger] filled(parts)[i],
        ) && !filled(parts)[i].contains(sep) by {
            if i < before.len() {
                assert(is_tidy(before[i]) && !before[i].contains(sep));
            }
        }
    }
}

proof fn lemma_pieces_hold_no_separator(s: Seq<char>, sep: char)
    ensures
        split_on(s, sep).len() > 0,
        forall|i: int| 0 <= i < split_on(s, sep).len() ==> !(#[trigger] split_on(s, sep)[i]).contains(
            sep,
        ),
    decreases s.len(),
{
    if s.len() > 0 {
        let before = split_on(s.drop_last(), sep);
        lemma_pieces_hold_no_separator(s.drop_last(), sep);
        let after = split_on(s, sep);
        assert forall|i: int| 0 <= i < after.len() implies !(#[trigger] after[i]).contains(sep) by {
            if s.last() == sep {
                if i < before.len() {
                    assert(!before[i].contains(sep));
                }
            } else if i < before.len() - 1 {
                assert(!before[i].contains(sep));
            } else {
                let p = before[before.len() - 1];
                assert(!p.contains(sep));
                assert forall|k: int| 0 <= k < after[i].len() implies after[i][k] != sep by {
                    if k < p.len() {
                        assert(p.contains(p[k]));
                    }
                }
            }
        }
    }
}

/// A profile that the form accepts is complete: its texts are tidy, its ports can be used, its key
/// is there, and it has a relay token only beside a relay.
pub proof fn law_accepted_profiles_are_complete(
    form: ProfileFormView,
    profiles: Seq<ProfileView>,
    keys: Seq<AuthKeyView>,
    fresh: Seq<char>,
    profile: ProfileView,
)
    requires
        form.checked(profiles, keys, fresh) == Ok::<ProfileView, Seq<char>>(profile),
    ensures
        is_complete(profile, keys),
{
    lemma_trimmed_is_tidy(form.server_node_id);
    lemma_trimmed_is_tidy(form.relay_auth_token);
    lemma_pieces_hold_no_separator(form.relay_urls, ',');
    lemma_filled_is_tidy(split_on(form.relay_urls, ','), ',');
}

/// Opening the form of a complete profile and saving it untouched gives the same profile, and so
/// leaves the list as it is. Of the other profiles it matters only that none shares the id, the
/// name, the server or a proxy port of this one.
pub proof fn law_untouched_form_changes_nothing(
    profiles: Seq<ProfileView>,
    keys: Seq<AuthKeyView>,
    fresh: Seq<char>,
    i: int,
)
    requires
        0 <= i < profiles.len(),
        stands_alone(profiles, i),
        own_proxies_apart(profiles, i),
        valid_name(profiles[i].name),
        is_complete(profiles[i], keys),
    ensures
        ProfileFormView::editing(profiles[i]).checked(profiles, keys, fresh) == Ok::<
            ProfileView,
            Seq<char>,
        >(profiles[i]),
        saved(profiles, profiles[i]) == profiles,
{
    let p = profiles[i];
    let form = ProfileFormView::editing(p);
    let own = Some(p.id);
    law_valid_name_is_unchanged(p.name);
    lemma_tidy_stays(p.server_node_id);
    assert(!profile_name_taken(profiles, p.name, own));
    lemma_no_other_server_user(profiles, p.server_node_id, p.id);
    assert(form.identity_error(profiles, keys) is None);
    if let Some(port) = p.socks_port {
        law_shown_port_reads_back(port, "SOCKS5 port"@);
        assert(port_at(p, -2) == Some(port));
        lemma_own_port(profiles, i, -2);
    }
    assert(form.socks(profiles) == Ok::<Option<u16>, Seq<char>>(p.socks_port));
    if let Some(port) = p.http_port {
        law_shown_port_reads_back(port, "HTTP port"@);
        assert(port_at(p, -1) == Some(port));
        assert(port_at(profiles[i], -1) != port_at(profiles[i], -2));
        lemma_own_port(profiles, i, -1);
    }
    assert(form.http(profiles, p.socks_port) == Ok::<Option<u16>, Seq<char>>(p.http_port));
    law_joined_list_reads_back(p.relay_urls);
    if let Some(token) = p.relay_auth_token {
        lemma_tidy_stays(token);
    } else {
        lemma_tidy_stays(Seq::empty());
    }
    lemma_profile_at(profiles, p.id);
    assert(profile_with_id(profiles, p.id) == Some(p));
    law_position(profiles, p.id);
    assert(p.record_id() == p.id);
    let pos = position(profiles, p.id)->0;
    assert(profiles[pos].record_id() == profiles[pos].id);
    assert(pos == i);
    assert(saved(profiles, p) == profiles);
}

} // verus!
