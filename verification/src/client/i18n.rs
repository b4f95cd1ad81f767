//! Localisation of the browser frontend. The language follows the
//! browser's stated preference; there is no picker, because a share link
//! should just open in the reader's own language.
use vstd::prelude::*;
use crate::text::{ascii_lower, chars_of, decimal, lower, lowercase_of, push_decimal, str_views};

verus! {

broadcast use vstd::string::group_string_axioms;

/// The languages the interface speaks.
#[derive(Debug, Clone, Copy, PartialEq, Eq, Structural)]
pub enum Lang {
    En,
    De,
}

/// The primary subtag of a BCP-47 tag: everything before the first `-` or
/// `_`.
pub open spec fn primary_subtag(tag: Seq<char>) -> Seq<char>
    decreases tag.len(),
{
    if tag.len() == 0 || tag[0] == '-' || tag[0] == '_' {
        Seq::empty()
    } else {
        seq![tag[0]] + primary_subtag(tag.drop_first())
    }
}

/// The language an ordered list of tags asks for: the first whose primary
/// subtag is, in any case, `de` or `en`; English when none is.
pub open spec fn lang_of_tags(tags: Seq<Seq<char>>) -> Lang
    decreases tags.len(),
{
    if tags.len() == 0 {
        Lang::En
    } else if lower(primary_subtag(tags[0])) == "de"@ {
        Lang::De
    } else if lower(primary_subtag(tags[0])) == "en"@ {
        Lang::En
    } else {
        lang_of_tags(tags.drop_first())
    }
}

/// The primary subtag of `tag`, lowercased.
fn primary_lower(tag: &str) -> (p: String)
    ensures
        p@ == lower(primary_subtag(tag@)),
{
    let v = chars_of(tag);
    let mut n: usize = 0;
    while n < v.len() && v[n] != '-' && v[n] != '_'
        invariant
            n <= v@.len(),
            forall|j: int| 0 <= j < n ==> v@[j] != '-' && v@[j] != '_',
        decreases v@.len() - n,
    {
        n += 1;
    }
    proof { lemma_primary_is_prefix(v@, n as int); }
    lowercase_of(&v.as_slice()[0..n])
}

/// The primary subtag is the longest prefix free of `-` and `_`.
proof fn lemma_primary_is_prefix(s: Seq<char>, n: int)
    requires
        0 <= n <= s.len(),
        forall|j: int| 0 <= j < n ==> s[j] != '-' && s[j] != '_',
        n == s.len() || s[n] == '-' || s[n] == '_',
    ensures
        primary_subtag(s) == s.subrange(0, n),
    decreases n,
{
    if n == 0 {
        assert(s.subrange(0, 0) =~= Seq::<char>::empty());
    } else {
        lemma_primary_is_prefix(s.drop_first(), n - 1);
        assert(seq![s[0]] + s.drop_first().subrange(0, n - 1) =~= s.subrange(0, n));
    }
}

impl Lang {
    /// Pick a language from an ordered list of BCP-47 tags. Unknown tags are
    /// skipped rather than aborting the search.
    pub fn from_tags(tags: &[&str]) -> (lang: Lang)
        ensures
            lang == lang_of_tags(str_views(tags@)),
    {
        let ghost all = str_views(tags@);
        let de = "de".to_owned();
        let en = "en".to_owned();
        let mut i: usize = 0;
        assert(all.subrange(0, all.len() as int) =~= all);
        while i < tags.len()
            invariant
                i <= tags@.len(),
                all == str_views(tags@),
                de@ == "de"@,
                en@ == "en"@,
                lang_of_tags(all.subrange(i as int, all.len() as int)) == lang_of_tags(all),
            decreases tags@.len() - i,
        {
            let p = primary_lower(tags[i]);
            proof {
                assert(all.subrange(i as int, all.len() as int)[0] == all[i as int]);
                assert(all.subrange(i as int, all.len() as int).drop_first() =~= all.subrange(i + 1, all.len() as int));
            }
            if p == de {
                return Lang::De;
            }
            if p == en {
                return Lang::En;
            }
            i += 1;
        }
        proof { assert(all.subrange(i as int, all.len() as int) =~= Seq::<Seq<char>>::empty()); }
        Lang::En
    }

    /// The `lang` attribute value, so screen readers and hyphenation behave.
    pub fn tag(self) -> (t: &'static str)
        ensures
            t@ == match self { Lang::En => "en"@, Lang::De => "de"@ },
    {
        match self {
            Lang::En => "en",
            Lang::De => "de",
        }
    }

    /// A number of days, in the singular for one.
    pub fn days(self, count: u64) -> (text: String)
        ensures
            text@ == match (self, count) {
                (Lang::En, 1) => "1 day"@,
                (Lang::En, n) => decimal(n as nat) + " days"@,
                (Lang::De, 1) => "1 Tag"@,
                (Lang::De, n) => decimal(n as nat) + " Tage"@,
            },
    {
        match (self, count) {
            (Lang::En, 1) => "1 day".to_owned(),
            (Lang::En, n) => {
                let mut t = String::new();
                push_decimal(&mut t, n);
                t.append(" days");
                t
            },
            (Lang::De, 1) => "1 Tag".to_owned(),
            (Lang::De, n) => {
                let mut t = String::new();
                push_decimal(&mut t, n);
                t.append(" Tage");
                t
            },
        }
    }

    /// A number of downloads, in the singular for one.
    pub fn downloads(self, count: u32) -> (text: String)
        ensures
            text@ == match (self, count) {
                (Lang::En, 1) => "1 download"@,
                (Lang::En, n) => decimal(n as nat) + " downloads"@,
                (Lang::De, 1) => "1 Download"@,
                (Lang::De, n) => decimal(n as nat) + " Downloads"@,
            },
    {
        match (self, count) {
            (Lang::En, 1) => "1 download".to_owned(),
            (Lang::En, n) => {
                let mut t = String::new();
                push_decimal(&mut t, n as u64);
                t.append(" downloads");
                t
            },
            (Lang::De, 1) => "1 Download".to_owned(),
            (Lang::De, n) => {
                let mut t = String::new();
                push_decimal(&mut t, n as u64);
                t.append(" Downloads");
                t
            },
        }
    }

    /// A coarse "in 3 days" description of `expires_at` as seen at `now`.
    pub fn until(self, expires_at: u64, now: u64) -> (text: String)
        ensures
            text@ == until_text(self, expires_at, now),
    {
        if expires_at <= now {
            return match self {
                Lang::En => "expired".to_owned(),
                Lang::De => "abgelaufen".to_owned(),
            };
        }
        let seconds = expires_at - now;
        let days = seconds / 86400;
        let hours = (seconds % 86400) / 3600;
        let minutes = (seconds % 3600) / 60;
        let mut t = String::new();
        if days == 0 && hours == 0 {
            push_decimal(&mut t, minutes);
            t.append(match self { Lang::En => " min", Lang::De => " Min." });
        } else if days == 0 {
            push_decimal(&mut t, hours);
            t.append(match self { Lang::En => " h", Lang::De => " Std." });
        } else {
            push_decimal(&mut t, days);
            t.append(match self { Lang::En => " d ", Lang::De => " T. " });
            push_decimal(&mut t, hours);
            t.append(match self { Lang::En => " h", Lang::De => " Std." });
        }
        t
    }

    /// The size limit, as shown under the drop zone.
    pub fn max_size(self, size: &str) -> (text: String)
        ensures
            text@ == match self { Lang::En => "up to "@ + size@, Lang::De => "bis "@ + size@ },
    {
        let mut t = match self { Lang::En => "up to ".to_owned(), Lang::De => "bis ".to_owned() };
        t.append(size);
        t
    }

    /// The message for a file over the size limit.
    pub fn too_large_body(self, size: &str) -> (text: String)
        ensures
            text@ == match self {
                Lang::En => "This server does not accept files larger than "@ + size@ + "."@,
                Lang::De => "Dieser Server nimmt keine Dateien über "@ + size@ + " an."@,
            },
    {
        match self {
            Lang::En => {
                let mut t = "This server does not accept files larger than ".to_owned();
                t.append(size);
                t.append(".");
                t
            },
            Lang::De => {
                let mut t = "Dieser Server nimmt keine Dateien über ".to_owned();
                t.append(size);
                t.append(" an.");
                t
            },
        }
    }

    /// The footer's summary of the limits.
    pub fn footer_limits(self, size: &str, max_days: u64) -> (text: String)
        ensures
            text@ == match self {
                Lang::En => "up to "@ + size@ + " · kept 1–"@ + decimal(max_days as nat) + " days"@,
                Lang::De => "bis "@ + size@ + " · Aufbewahrung 1–"@ + decimal(max_days as nat) + " Tage"@,
            },
    {
        match self {
            Lang::En => {
                let mut t = "up to ".to_owned();
                t.append(size);
                t.append(" · kept 1–");
                push_decimal(&mut t, max_days);
                t.append(" days");
                t
            },
            Lang::De => {
                let mut t = "bis ".to_owned();
                t.append(size);
                t.append(" · Aufbewahrung 1–");
                push_decimal(&mut t, max_days);
                t.append(" Tage");
                t
            },
        }
    }

    /// The activity-log line for a selected file.
    pub fn log_file(self, name: &str, size: &str) -> (text: String)
        ensures
            text@ == name@ + " ("@ + size@ + match self { Lang::En => ") selected"@, Lang::De => ") ausgewählt"@ },
    {
        let mut t = name.to_owned();
        t.append(" (");
        t.append(size);
        t.append(match self { Lang::En => ") selected", Lang::De => ") ausgewählt" });
        t
    }

    /// The activity-log line for a share reference.
    pub fn log_share_id(self, id: &str) -> (text: String)
        ensures
            text@ == match self { Lang::En => "share reference "@, Lang::De => "Freigabe-Kennung "@ } + id@,
    {
        let mut t = match self { Lang::En => "share reference ".to_owned(), Lang::De => "Freigabe-Kennung ".to_owned() };
        t.append(id);
        t
    }

    /// The activity-log line for a decrypted file name.
    pub fn log_decrypted_name(self, name: &str) -> (text: String)
        ensures
            text@ == match self { Lang::En => "file name decrypted: "@, Lang::De => "Dateiname entschlüsselt: "@ } + name@,
    {
        let mut t = match self {
            Lang::En => "file name decrypted: ".to_owned(),
            Lang::De => "Dateiname entschlüsselt: ".to_owned(),
        };
        t.append(name);
        t
    }

    /// The activity-log line for passphrase stretching.
    pub fn log_stretching(self, iterations: u32) -> (text: String)
        ensures
            text@ == match self {
                Lang::En => "stretching the passphrase over "@ + decimal(iterations as nat) + " rounds"@,
                Lang::De => "Passphrase wird über "@ + decimal(iterations as nat) + " Runden gestreckt"@,
            },
    {
        let mut t = match self {
            Lang::En => "stretching the passphrase over ".to_owned(),
            Lang::De => "Passphrase wird über ".to_owned(),
        };
        push_decimal(&mut t, iterations as u64);
        t.append(match self { Lang::En => " rounds", Lang::De => " Runden gestreckt" });
        t
    }
}

/// How long until `expires_at`, from `now`: `expired` once it passed, else
/// minutes under an hour, hours under a day, and days with hours beyond.
pub open spec fn until_text(lang: Lang, expires_at: u64, now: u64) -> Seq<char> {
    if expires_at <= now {
        match lang { Lang::En => "expired"@, Lang::De => "abgelaufen"@ }
    } else {
        let s = (expires_at - now) as nat;
        let days = s / 86400;
        let hours = (s % 86400) / 3600;
        let minutes = (s % 3600) / 60;
        if days == 0 && hours == 0 {
            decimal(minutes) + match lang { Lang::En => " min"@, Lang::De => " Min."@ }
        } else if days == 0 {
            decimal(hours) + match lang { Lang::En => " h"@, Lang::De => " Std."@ }
        } else {
            decimal(days) + match lang { Lang::En => " d "@, Lang::De => " T. "@ } + decimal(hours)
                + match lang { Lang::En => " h"@, Lang::De => " Std."@ }
        }
    }
}

} // verus!
