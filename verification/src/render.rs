//! The wire protocol's reply lines. Each line format is written once as a
//! spec function over character sequences, and once as an executable builder
//! proved to produce exactly that line.
use vstd::prelude::*;
use vstd::string::StringExecFns;

use crate::strings::spec_decimal;

verus! {

pub open spec fn line_nick(old_nick: Seq<char>, new_nick: Seq<char>) -> Seq<char> {
    ":"@ + old_nick + " NICK :"@ + new_nick
}

pub open spec fn line_welcome(nick: Seq<char>) -> Seq<char> {
    "001 "@ + nick + " :Welcome to the IRC server!"@
}

pub open spec fn line_your_host(nick: Seq<char>) -> Seq<char> {
    "002 "@ + nick + " :Your host is rustirc2, running version 1.0"@
}

pub open spec fn line_created(nick: Seq<char>, date: Seq<char>) -> Seq<char> {
    "003 "@ + nick + " :This server was created "@ + date
}

pub open spec fn line_server_info(nick: Seq<char>) -> Seq<char> {
    "004 "@ + nick + " rustirc2 1.0 o o"@
}

pub open spec fn line_options(nick: Seq<char>) -> Seq<char> {
    "005 "@ + nick + " CHANTYPES=# CHARSET=utf-8 :are supported by this server"@
}

pub open spec fn line_user_count(nick: Seq<char>, count: nat) -> Seq<char> {
    "251 "@ + nick + " :There are "@ + spec_decimal(count) + " users and 0 services on 1 server"@
}

pub open spec fn line_join(nick: Seq<char>, channel: Seq<char>) -> Seq<char> {
    ":"@ + nick + " JOIN :"@ + channel
}

pub open spec fn line_names(nick: Seq<char>, channel: Seq<char>, nicks: Seq<char>) -> Seq<char> {
    ":server 353 "@ + nick + " = "@ + channel + " :"@ + nicks
}

pub open spec fn line_names_end(nick: Seq<char>, channel: Seq<char>) -> Seq<char> {
    ":server 366 "@ + nick + " "@ + channel + " :End of /NAMES list"@
}

pub open spec fn line_part(nick: Seq<char>, channel: Seq<char>) -> Seq<char> {
    ":"@ + nick + " PART :"@ + channel
}

pub open spec fn line_privmsg(nick: Seq<char>, target: Seq<char>, text: Seq<char>) -> Seq<char> {
    ":"@ + nick + " PRIVMSG "@ + target + " :"@ + text
}

pub open spec fn line_quit(nick: Seq<char>, reason: Seq<char>) -> Seq<char> {
    ":"@ + nick + " QUIT :"@ + reason
}

pub open spec fn line_pong(token: Seq<char>) -> Seq<char> {
    "PONG "@ + token
}

pub open spec fn line_topic_set(nick: Seq<char>, channel: Seq<char>, text: Seq<char>) -> Seq<
    char,
> {
    ":"@ + nick + " TOPIC "@ + channel + " :"@ + text
}

pub open spec fn line_topic_is(nick: Seq<char>, channel: Seq<char>, topic: Seq<char>) -> Seq<
    char,
> {
    ":server 332 "@ + nick + " "@ + channel + " :"@ + topic
}

pub open spec fn line_topic_none(nick: Seq<char>, channel: Seq<char>) -> Seq<char> {
    ":server 331 "@ + nick + " "@ + channel + " :No topic is set"@
}

pub open spec fn line_list_head() -> Seq<char> {
    ":server 321 Channel :Users Name"@
}

pub open spec fn line_list_row(channel: Seq<char>, count: nat, topic: Seq<char>) -> Seq<char> {
    ":server 322 "@ + channel + " "@ + spec_decimal(count) + " :"@ + topic
}

pub open spec fn line_list_end() -> Seq<char> {
    ":server 323 :End of /LIST"@
}

pub open spec fn line_cap_ls() -> Seq<char> {
    "CAP * LS :"@
}

pub open spec fn line_cap_ack() -> Seq<char> {
    "CAP * ACK :"@
}

pub open spec fn line_error(message: Seq<char>) -> Seq<char> {
    "ERROR :"@ + message
}

pub fn render_nick(old_nick: &str, new_nick: &str) -> (r: String)
    ensures
        r@ == line_nick(old_nick@, new_nick@),
{
    let mut s = String::from_str(":");
    s.append(old_nick);
    s.append(" NICK :");
    s.append(new_nick);
    proof {
        assert(s@ =~= line_nick(old_nick@, new_nick@));
    }
    s
}

pub fn render_welcome(nick: &str) -> (r: String)
    ensures
        r@ == line_welcome(nick@),
{
    let mut s = String::from_str("001 ");
    s.append(nick);
    s.append(" :Welcome to the IRC server!");
    proof {
        assert(s@ =~= line_welcome(nick@));
    }
    s
}

pub fn render_your_host(nick: &str) -> (r: String)
    ensures
        r@ == line_your_host(nick@),
{
    let mut s = String::from_str("002 ");
    s.append(nick);
    s.append(" :Your host is rustirc2, running version 1.0");
    proof {
        assert(s@ =~= line_your_host(nick@));
    }
    s
}

pub fn render_created(nick: &str, date: &str) -> (r: String)
    ensures
        r@ == line_created(nick@, date@),
{
    let mut s = String::from_str("003 ");
    s.append(nick);
    s.append(" :This server was created ");
    s.append(date);
    proof {
        assert(s@ =~= line_created(nick@, date@));
    }
    s
}

pub fn render_server_info(nick: &str) -> (r: String)
    ensures
        r@ == line_server_info(nick@),
{
    let mut s = String::from_str("004 ");
    s.append(nick);
    s.append(" rustirc2 1.0 o o");
    proof {
        assert(s@ =~= line_server_info(nick@));
    }
    s
}

pub fn render_options(nick: &str) -> (r: String)
    ensures
        r@ == line_options(nick@),
{
    let mut s = String::from_str("005 ");
    s.append(nick);
    s.append(" CHANTYPES=# CHARSET=utf-8 :are supported by this server");
    proof {
        assert(s@ =~= line_options(nick@));
    }
    s
}

pub fn render_user_count(nick: &str, count: usize) -> (r: String)
    ensures
        r@ == line_user_count(nick@, count as nat),
{
    let mut s = String::from_str("251 ");
    s.append(nick);
    s.append(" :There are ");
    let digits = crate::strings::usize_to_string(count);
    s.append(digits.as_str());
    s.append(" users and 0 services on 1 server");
    proof {
        assert(s@ =~= line_user_count(nick@, count as nat));
    }
    s
}

pub fn render_join(nick: &str, channel: &str) -> (r: String)
    ensures
        r@ == line_join(nick@, channel@),
{
    let mut s = String::from_str(":");
    s.append(nick);
    s.append(" JOIN :");
    s.append(channel);
    proof {
        assert(s@ =~= line_join(nick@, channel@));
    }
    s
}

pub fn render_names(nick: &str, channel: &str, nicks: &str) -> (r: String)
    ensures
        r@ == line_names(nick@, channel@, nicks@),
{
    let mut s = String::from_str(":server 353 ");
    s.append(nick);
    s.append(" = ");
    s.append(channel);
    s.append(" :");
    s.append(nicks);
    proof {
        assert(s@ =~= line_names(nick@, channel@, nicks@));
    }
    s
}

pub fn render_names_end(nick: &str, channel: &str) -> (r: String)
    ensures
        r@ == line_names_end(nick@, channel@),
{
    let mut s = String::from_str(":server 366 ");
    s.append(nick);
    s.append(" ");
    s.append(channel);
    s.append(" :End of /NAMES list");
    proof {
        assert(s@ =~= line_names_end(nick@, channel@));
    }
    s
}

pub fn render_part(nick: &str, channel: &str) -> (r: String)
    ensures
        r@ == line_part(nick@, channel@),
{
    let mut s = String::from_str(":");
    s.append(nick);
    s.append(" PART :");
    s.append(channel);
    proof {
        assert(s@ =~= line_part(nick@, channel@));
    }
    s
}

pub fn render_privmsg(nick: &str, target: &str, text: &str) -> (r: String)
    ensures
        r@ == line_privmsg(nick@, target@, text@),
{
    let mut s = String::from_str(":");
    s.append(nick);
    s.append(" PRIVMSG ");
    s.append(target);
    s.append(" :");
    s.append(text);
    proof {
        assert(s@ =~= line_privmsg(nick@, target@, text@));
    }
    s
}

pub fn render_quit(nick: &str, reason: &str) -> (r: String)
    ensures
        r@ == line_quit(nick@, reason@),
{
    let mut s = String::from_str(":");
    s.append(nick);
    s.append(" QUIT :");
    s.append(reason);
    proof {
        assert(s@ =~= line_quit(nick@, reason@));
    }
    s
}

pub fn render_pong(token: &str) -> (r: String)
    ensures
        r@ == line_pong(token@),
{
    let mut s = String::from_str("PONG ");
    s.append(token);
    proof {
        assert(s@ =~= line_pong(token@));
    }
    s
}

pub fn render_topic_set(nick: &str, channel: &str, text: &str) -> (r: String)
    ensures
        r@ == line_topic_set(nick@, channel@, text@),
{
    let mut s = String::from_str(":");
    s.append(nick);
    s.append(" TOPIC ");
    s.append(channel);
    s.append(" :");
    s.append(text);
    proof {
        assert(s@ =~= line_topic_set(nick@, channel@, text@));
    }
    s
}

pub fn render_topic_is(nick: &str, channel: &str, topic: &str) -> (r: String)
    ensures
        r@ == line_topic_is(nick@, channel@, topic@),
{
    let mut s = String::from_str(":server 332 ");
    s.append(nick);
    s.append(" ");
    s.append(channel);
    s.append(" :");
    s.append(topic);
    proof {
        assert(s@ =~= line_topic_is(nick@, channel@, topic@));
    }
    s
}

pub fn render_topic_none(nick: &str, channel: &str) -> (r: String)
    ensures
        r@ == line_topic_none(nick@, channel@),
{
    let mut s = String::from_str(":server 331 ");
    s.append(nick);
    s.append(" ");
    s.append(channel);
    s.append(" :No topic is set");
    proof {
        assert(s@ =~= line_topic_none(nick@, channel@));
    }
    s
}

pub fn render_list_head() -> (r: String)
    ensures
        r@ == line_list_head(),
{
    String::from_str(":server 321 Channel :Users Name")
}

pub fn render_list_row(channel: &str, count: usize, topic: &str) -> (r: String)
    ensures
        r@ == line_list_row(channel@, count as nat, topic@),
{
    let mut s = String::from_str(":server 322 ");
    s.append(channel);
    s.append(" ");
    let digits = crate::strings::usize_to_string(count);
    s.append(digits.as_str());
    s.append(" :");
    s.append(topic);
    proof {
        assert(s@ =~= line_list_row(channel@, count as nat, topic@));
    }
    s
}

pub fn render_list_end() -> (r: String)
    ensures
        r@ == line_list_end(),
{
    String::from_str(":server 323 :End of /LIST")
}

pub fn render_cap_ls() -> (r: String)
    ensures
        r@ == line_cap_ls(),
{
    String::from_str("CAP * LS :")
}

pub fn render_cap_ack() -> (r: String)
    ensures
        r@ == line_cap_ack(),
{
    String::from_str("CAP * ACK :")
}

pub fn render_error(message: &str) -> (r: String)
    ensures
        r@ == line_error(message@),
{
    let mut s = String::from_str("ERROR :");
    s.append(message);
    proof {
        assert(s@ =~= line_error(message@));
    }
    s
}

} // verus!
