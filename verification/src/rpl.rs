//! The numeric replies that the server sends, by their names.

use vstd::prelude::*;

verus! {

pub const WELCOME: u16 = 1;
pub const YOURHOST: u16 = 2;
pub const CREATED: u16 = 3;
pub const MYINFO: u16 = 4;
pub const ISUPPORT: u16 = 5;
pub const UMODEIS: u16 = 221;
pub const LUSERCLIENT: u16 = 251;
pub const LUSEROP: u16 = 252;
pub const LUSERUNKNOWN: u16 = 253;
pub const LUSERCHANNELS: u16 = 254;
pub const LUSERME: u16 = 255;
pub const ADMINME: u16 = 256;
pub const ADMINLOC1: u16 = 257;
pub const ADMINLOC2: u16 = 258;
pub const ADMINMAIL: u16 = 259;
pub const AWAY: u16 = 301;
pub const UNAWAY: u16 = 305;
pub const NOWAWAY: u16 = 306;
pub const WHOISUSER: u16 = 311;
pub const WHOISSERVER: u16 = 312;
pub const WHOISOPERATOR: u16 = 313;
pub const ENDOFWHO: u16 = 315;
pub const WHOISIDLE: u16 = 317;
pub const ENDOFWHOIS: u16 = 318;
pub const WHOISCHANNELS: u16 = 319;
pub const LIST: u16 = 322;
pub const LISTEND: u16 = 323;
pub const CHANNELMODEIS: u16 = 324;
pub const NOTOPIC: u16 = 331;
pub const TOPIC: u16 = 332;
pub const TOPICWHOTIME: u16 = 333;
pub const INVITING: u16 = 341;
pub const INVITELIST: u16 = 346;
pub const ENDOFINVITELIST: u16 = 347;
pub const EXCEPTLIST: u16 = 348;
pub const ENDOFEXCEPTLIST: u16 = 349;
pub const VERSION: u16 = 351;
pub const WHOREPLY: u16 = 352;
pub const NAMREPLY: u16 = 353;
pub const ENDOFNAMES: u16 = 366;
pub const BANLIST: u16 = 367;
pub const ENDOFBANLIST: u16 = 368;
pub const INFO: u16 = 371;
pub const MOTD: u16 = 372;
pub const ENDOFINFO: u16 = 374;
pub const MOTDSTART: u16 = 375;
pub const ENDOFMOTD: u16 = 376;
pub const YOUREOPER: u16 = 381;
pub const REHASHING: u16 = 382;
pub const TIME: u16 = 391;
pub const ERR_NOSUCHNICK: u16 = 401;
pub const ERR_NOSUCHCHANNEL: u16 = 403;
pub const ERR_CANNOTSENDTOCHAN: u16 = 404;
pub const ERR_INVALIDCAPCMD: u16 = 410;
pub const ERR_NORECIPIENT: u16 = 411;
pub const ERR_NOTEXTTOSEND: u16 = 412;
pub const ERR_INPUTTOOLONG: u16 = 417;
pub const ERR_UNKNOWNCOMMAND: u16 = 421;
pub const ERR_NOMOTD: u16 = 422;
pub const ERR_NONICKNAMEGIVEN: u16 = 431;
pub const ERR_ERRONEUSNICKNAME: u16 = 432;
pub const ERR_NICKNAMEINUSE: u16 = 433;
pub const ERR_USERNOTINCHANNEL: u16 = 441;
pub const ERR_NOTONCHANNEL: u16 = 442;
pub const ERR_USERONCHANNEL: u16 = 443;
pub const ERR_NOTREGISTERED: u16 = 451;
pub const ERR_NEEDMOREPARAMS: u16 = 461;
pub const ERR_ALREADYREGISTRED: u16 = 462;
pub const ERR_PASSWDMISMATCH: u16 = 464;
pub const ERR_KEYSET: u16 = 467;
pub const ERR_CHANNELISFULL: u16 = 471;
pub const ERR_UNKNOWNMODE: u16 = 472;
pub const ERR_INVITEONLYCHAN: u16 = 473;
pub const ERR_BANNEDFROMCHAN: u16 = 474;
pub const ERR_BADCHANKEY: u16 = 475;
pub const ERR_BADCHANMASK: u16 = 476;
pub const ERR_NOPRIVILEGES: u16 = 481;
pub const ERR_CHANOPRIVSNEEDED: u16 = 482;
pub const ERR_NOOPERHOST: u16 = 491;
pub const ERR_UMODEUNKNOWNFLAG: u16 = 501;
pub const ERR_USERSDONTMATCH: u16 = 502;
pub const LOGGEDIN: u16 = 900;
pub const SASLSUCCESS: u16 = 903;
pub const ERR_SASLFAIL: u16 = 904;
pub const ERR_SASLTOOLONG: u16 = 905;
pub const ERR_SASLABORTED: u16 = 906;
pub const ERR_SASLALREADY: u16 = 907;
pub const SASLMECHS: u16 = 908;

} // verus!
