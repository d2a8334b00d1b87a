//! The texts that the server sends in its replies.

use vstd::prelude::*;

verus! {

pub const ADMIN_ME: &'static str = "Administrative info";
pub const ALREADY_REGISTERED: &'static str = "You are already registered";
pub const BAD_CHAN_KEY: &'static str = "Cannot join channel (+k)";
pub const BANNED_FROM_CHAN: &'static str = "Cannot join channel (+b)";
pub const CANNOT_SEND_TO_CHAN: &'static str = "Cannot send to channel";
pub const CHANNEL_IS_FULL: &'static str = "Cannot join channel (+l)";
pub const CHAN_O_PRIVS_NEEDED: &'static str = "You are not channel operator";
pub const CLOSING_LINK: &'static str = "Closing link";
pub const END_OF_BAN_LIST: &'static str = "End of ban list";
pub const END_OF_EXCEPT_LIST: &'static str = "End of exception list";
pub const END_OF_INFO: &'static str = "End of INFO";
pub const END_OF_INVITE_LIST: &'static str = "End of invitation list";
pub const END_OF_LIST: &'static str = "End of LIST";
pub const END_OF_MOTD: &'static str = "End of MOTD";
pub const END_OF_NAMES: &'static str = "End of NAMES list";
pub const END_OF_WHO: &'static str = "End of WHO list";
pub const END_OF_WHOIS: &'static str = "End of WHOIS";
pub const ERRONEOUS_NICKNAME: &'static str = "Erroneous nickname";
pub const INPUT_TOO_LONG: &'static str = "Input line was too long";
pub const INVALID_REALNAME: &'static str = "Realname is not valid";
pub const INVITE_ONLY_CHAN: &'static str = "Cannot join channel (+i)";
pub const I_SUPPORT: &'static str = "are supported by this server";
pub const KEY_SET: &'static str = "Channel key already set";
pub const LUSER_CHANNELS: &'static str = "channels formed";
pub const LUSER_OP: &'static str = "operator(s) online";
pub const LUSER_UNKNOWN: &'static str = "unknown connection(s)";
pub const NEED_MORE_PARAMS: &'static str = "Not enough parameters";
pub const NICKNAME_IN_USE: &'static str = "Nickname is already in use";
pub const NOT_ON_CHANNEL: &'static str = "You're not on that channel";
pub const NOT_REGISTERED: &'static str = "You have not registered";
pub const NO_MOTD: &'static str = "MOTD file is missing";
pub const NO_PRIVILEGES: &'static str = "Permission denied- You're not an IRC operator";
pub const NO_SUCH_CHANNEL: &'static str = "No such channel";
pub const NO_SUCH_NICK: &'static str = "No such nick/channel";
pub const NO_TOPIC: &'static str = "No topic is set";
pub const NOW_AWAY: &'static str = "You have been marked as being away";
pub const PASSWORD_MISMATCH: &'static str = "Password incorrect";
pub const REHASHING: &'static str = "Rehashing";
pub const SASL_ABORTED: &'static str = "SASL authentication aborted";
pub const SASL_ALREADY: &'static str = "You have already authenticated using SASL";
pub const SASL_FAILED: &'static str = "SASL authentication failed";
pub const SASL_MECHS: &'static str = "are available SASL mechanisms";
pub const SASL_SUCCESSFUL: &'static str = "SASL authentication successful";
pub const SASL_TOO_LONG: &'static str = "SASL message too long";
pub const UN_AWAY: &'static str = "You are no longer marked as being away";
pub const UNKNOWN_COMMAND: &'static str = "Unknown command";
pub const UNKNOWN_MODE: &'static str = "is unknown mode char to me";
pub const USERS_DONT_MATCH: &'static str = "Cannot change mode for other users";
pub const USER_MODE_UNKNOWN_FLAG: &'static str = "Unknown MODE flag";
pub const USER_NOT_IN_CHANNEL: &'static str = "They aren't on that channel";
pub const USER_ON_CHANNEL: &'static str = "is already on channel";
pub const WELCOME: &'static str = "Welcome home, ";
pub const YOUR_HOST: &'static str = "Your host is ";
pub const YOUR_HOST_VERSION: &'static str = ", running version ";
pub const CREATED: &'static str = "This server was created ";
pub const LOGGED_IN: &'static str = "You are now logged in as ";
pub const LUSER_CLIENT_START: &'static str = "There are ";
pub const LUSER_CLIENT_END: &'static str = " users and 0 services on 1 servers";
pub const LUSER_ME_START: &'static str = "I have ";
pub const LUSER_ME_END: &'static str = " clients and 0 servers";
pub const MOTD_START: &'static str = "- Message of the day - ";
pub const MOTD_LINE: &'static str = "- ";
pub const YOURE_OPER: &'static str = "You are now an IRC operator";
pub const WHOIS_IDLE: &'static str = "seconds idle, signon time";
pub const WHOIS_OPERATOR: &'static str = "is an IRC operator";
pub const INVITING: &'static str = "Invitation sent";
pub const SERVER_VERSION: &'static str = "ellidri-3.0.0";
pub const SERVER_INFO: &'static str = "An IRC server";
pub const USER_MODES: &'static str = "iws";
pub const SIMPLE_CHAN_MODES: &'static str = "aimnqpst";
pub const EXTENDED_CHAN_MODES: &'static str = "beIklov";
pub const CHANMODES: &'static str = "CHANMODES=beI,k,l,aimnqpst";

} // verus!
