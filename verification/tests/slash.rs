use cordiale::slash::{expand_aliases, is_channel, is_service_nick, parse, SlashCommand};

#[test]
fn plain_text_and_escapes() {
    assert_eq!(parse("hello"), None);
    assert_eq!(parse("/"), None);
    assert_eq!(parse("//etc/hosts"), Some(SlashCommand::Say("/etc/hosts".to_string())));
    assert_eq!(parse("/frob x"), Some(SlashCommand::Unknown("/frob".to_string())));
}

#[test]
fn me_msg_notice_and_query() {
    assert_eq!(
        parse("/me waves  hi"),
        Some(SlashCommand::Action("waves  hi".to_string()))
    );
    assert_eq!(
        parse("/MSG alice hi there"),
        Some(SlashCommand::Msg {
            target: "alice".to_string(),
            text: "hi there".to_string()
        })
    );
    assert!(matches!(parse("/msg #rust hi"), Some(SlashCommand::Usage(_))));
    assert!(matches!(parse("/msg alice"), Some(SlashCommand::Usage(_))));
    assert_eq!(
        parse("/notice #rust heads up"),
        Some(SlashCommand::Notice {
            target: "#rust".to_string(),
            text: "heads up".to_string()
        })
    );
    assert_eq!(parse("/q bob"), Some(SlashCommand::Query(Some("bob".to_string()))));
    assert_eq!(parse("/query"), Some(SlashCommand::Query(None)));
    assert_eq!(
        parse("/ns identify secret"),
        Some(SlashCommand::Msg {
            target: "NickServ".to_string(),
            text: "identify secret".to_string()
        })
    );
    assert!(is_service_nick("ChanServ"));
    assert!(!is_service_nick("serv"));
}

#[test]
fn join_part_cycle_and_topic() {
    assert_eq!(
        parse("/join rust"),
        Some(SlashCommand::Join {
            channels: "#rust".to_string(),
            key: None
        })
    );
    assert_eq!(
        parse("/j #a,#b key"),
        Some(SlashCommand::Join {
            channels: "#a,#b".to_string(),
            key: Some("key".to_string())
        })
    );
    assert!(matches!(parse("/join a,b"), Some(SlashCommand::Usage(_))));
    assert!(matches!(parse("/join"), Some(SlashCommand::Usage(_))));
    assert_eq!(
        parse("/part"),
        Some(SlashCommand::Part {
            channel: None,
            reason: None
        })
    );
    assert_eq!(
        parse("/part #rust bye all"),
        Some(SlashCommand::Part {
            channel: Some("#rust".to_string()),
            reason: Some("bye all".to_string())
        })
    );
    assert_eq!(
        parse("/cycle see you"),
        Some(SlashCommand::Cycle {
            channel: None,
            reason: Some("see you".to_string())
        })
    );
    assert_eq!(
        parse("/topic new topic"),
        Some(SlashCommand::TopicSet {
            channel: None,
            text: "new topic".to_string()
        })
    );
    assert_eq!(
        parse("/topic #rust -delete"),
        Some(SlashCommand::TopicClear {
            channel: Some("#rust".to_string())
        })
    );
    assert_eq!(
        parse("/topic # #rust rocks"),
        Some(SlashCommand::TopicSet {
            channel: None,
            text: "#rust rocks".to_string()
        })
    );
    assert_eq!(parse("/topic"), Some(SlashCommand::TopicShow { channel: None }));
    assert_eq!(
        parse("/topic #rust"),
        Some(SlashCommand::TopicShow {
            channel: Some("#rust".to_string())
        })
    );
}

#[test]
fn session_verbs() {
    assert_eq!(parse("/nick neo"), Some(SlashCommand::Nick("neo".to_string())));
    assert!(matches!(parse("/nick a b"), Some(SlashCommand::Usage(_))));
    assert_eq!(parse("/away"), Some(SlashCommand::Away(None)));
    assert_eq!(parse("/away :"), Some(SlashCommand::Away(None)));
    assert_eq!(parse("/away :lunch"), Some(SlashCommand::Away(Some("lunch".to_string()))));
    assert_eq!(
        parse("/disconnect libera going home"),
        Some(SlashCommand::Disconnect {
            network: Some("libera".to_string()),
            reason: Some("going home".to_string())
        })
    );
    assert_eq!(
        parse("/reconnect"),
        Some(SlashCommand::Reconnect {
            network: None,
            reason: None
        })
    );
    assert_eq!(
        parse("/connect libera"),
        Some(SlashCommand::Connect("libera".to_string()))
    );
    assert_eq!(parse("/quit bye"), Some(SlashCommand::Quit(Some("bye".to_string()))));
}

#[test]
fn ctcp_and_ping() {
    assert_eq!(
        parse("/ctcp bob version"),
        Some(SlashCommand::Ctcp {
            target: "bob".to_string(),
            verb: "VERSION".to_string(),
            args: None
        })
    );
    assert_eq!(parse("/ping bob"), Some(SlashCommand::Ping("bob".to_string())));
    assert!(matches!(parse("/ctcp bob"), Some(SlashCommand::Usage(_))));
}

#[test]
fn operator_verbs() {
    assert_eq!(
        parse("/voice a b"),
        Some(SlashCommand::NickModes {
            verb: "voice",
            nicks: vec!["a".to_string(), "b".to_string()]
        })
    );
    assert!(matches!(parse("/op"), Some(SlashCommand::Usage(_))));
    assert_eq!(
        parse("/kick troll go away"),
        Some(SlashCommand::Kick {
            nick: "troll".to_string(),
            reason: "go away".to_string()
        })
    );
    assert_eq!(
        parse("/kickban troll bye"),
        Some(SlashCommand::KickBan {
            nick: "troll".to_string(),
            reason: "bye".to_string()
        })
    );
    assert!(matches!(parse("/kb"), Some(SlashCommand::Usage(_))));
    assert_eq!(parse("/ban *!*@spam"), Some(SlashCommand::Ban("*!*@spam".to_string())));
    assert_eq!(
        parse("/unban *!*@spam"),
        Some(SlashCommand::Unban("*!*@spam".to_string()))
    );
    assert_eq!(
        parse("/mode +o alice"),
        Some(SlashCommand::Mode {
            target: None,
            modes: "+o".to_string(),
            params: vec!["alice".to_string()]
        })
    );
    assert_eq!(
        parse("/mode #rust +k secret"),
        Some(SlashCommand::Mode {
            target: Some("#rust".to_string()),
            modes: "+k".to_string(),
            params: vec!["secret".to_string()]
        })
    );
    assert_eq!(
        parse("/mode #rust"),
        Some(SlashCommand::ModeShow {
            channel: Some("#rust".to_string())
        })
    );
    assert_eq!(parse("/mode"), Some(SlashCommand::ModeShow { channel: None }));
    assert!(matches!(parse("/mode alice"), Some(SlashCommand::Usage(_))));
    assert_eq!(parse("/umode +i"), Some(SlashCommand::Umode("+i".to_string())));
    assert_eq!(parse("/umode"), Some(SlashCommand::UmodeShow));
    assert_eq!(parse("/names"), Some(SlashCommand::Names(None)));
    assert_eq!(
        parse("/quote PRIVMSG x :y"),
        Some(SlashCommand::Raw("PRIVMSG x :y".to_string()))
    );
    assert_eq!(
        parse("/kill bot spam"),
        Some(SlashCommand::Raw("KILL bot :spam".to_string()))
    );
    assert_eq!(parse("/stats u"), Some(SlashCommand::Raw("STATS u".to_string())));
    assert_eq!(parse("/rehash"), Some(SlashCommand::Raw("REHASH".to_string())));
    assert_eq!(
        parse("/oper admin hunter2"),
        Some(SlashCommand::Oper {
            name: "admin".to_string(),
            password: "hunter2".to_string()
        })
    );
    assert!(matches!(parse("/oper admin"), Some(SlashCommand::Usage(_))));
}

#[test]
fn aliases_expand_like_cicchetto() {
    let aliases: Vec<(String, String)> = [
        ("k", "kick $1 $2-"),
        ("wii", "/whois $1 $1"),
        ("hi", "msg $1 hello   there"),
        ("say", "me says $*"),
        ("j2", "join"),
        ("loop", "loop"),
    ]
    .into_iter()
    .map(|(name, expansion)| (name.to_string(), expansion.to_string()))
    .collect();
    let expand = |line: &str| expand_aliases(line, &aliases);
    assert_eq!(expand("hello"), Ok("hello".to_string()));
    assert_eq!(expand("//k x"), Ok("//k x".to_string()));
    assert_eq!(expand("/me waves"), Ok("/me waves".to_string()));
    assert_eq!(
        expand("/k troll go  away"),
        Ok("/kick troll go away".to_string())
    );
    assert_eq!(expand("/WII bob"), Ok("/whois bob bob".to_string()));
    assert_eq!(expand("/k"), Ok("/kick".to_string()));
    assert_eq!(expand("/say a  b"), Ok("/me says a  b".to_string()));
    assert_eq!(expand("/j2 #rust"), Ok("/join #rust".to_string()));
    assert_eq!(expand("/w alice"), Ok("/whois alice".to_string()));
    assert_eq!(expand("/n"), Ok("/names".to_string()));
    assert_eq!(expand("/alias k whois"), Ok("/alias k whois".to_string()));
    assert!(expand("/loop").is_err());
}

#[test]
fn alias_and_fan_out_verbs() {
    assert_eq!(
        parse("/alias /K kick $1"),
        Some(SlashCommand::AliasDefine {
            name: "k".to_string(),
            expansion: "kick $1".to_string()
        })
    );
    assert!(matches!(parse("/alias k"), Some(SlashCommand::Usage(_))));
    assert_eq!(parse("/unalias K"), Some(SlashCommand::Unalias("k".to_string())));
    assert_eq!(
        parse("/ame waves"),
        Some(SlashCommand::FanOut {
            action: true,
            text: "waves".to_string()
        })
    );
    assert!(matches!(parse("/amsg"), Some(SlashCommand::Usage(_))));
    assert_eq!(
        parse("/hs help"),
        Some(SlashCommand::Msg {
            target: "HelpServ".to_string(),
            text: "help".to_string()
        })
    );
}

#[test]
fn list_verbs() {
    assert_eq!(
        parse("/hilight rust*"),
        Some(SlashCommand::Highlight {
            add: true,
            pattern: "rust*".to_string()
        })
    );
    assert_eq!(
        parse("/dehilight rust*"),
        Some(SlashCommand::Highlight {
            add: false,
            pattern: "rust*".to_string()
        })
    );
    assert_eq!(
        parse("/unignore *!*@spam"),
        Some(SlashCommand::Ignore {
            add: false,
            mask: "*!*@spam".to_string()
        })
    );
    assert_eq!(
        parse("/watch a b"),
        Some(SlashCommand::Notify(vec!["a".to_string(), "b".to_string()]))
    );
    assert!(matches!(parse("/notify"), Some(SlashCommand::Usage(_))));
}

#[test]
fn only_lines_after_a_slash_are_commands() {
    assert_eq!(parse(""), None);
    assert_eq!(parse("a /me b"), None);
    assert!(parse("/me x").is_some());
    assert!(parse("//").is_some());
    assert!(is_channel("#rust"));
    assert!(!is_channel("rust"));
}

#[test]
fn verbs_are_read_in_any_letter_case() {
    assert_eq!(parse("/NiCk neo"), parse("/nick neo"));
    assert_eq!(parse("/JOIN rust"), parse("/join rust"));
}

#[test]
fn alias_chains_end_or_are_refused() {
    let aliases: Vec<(String, String)> = vec![
        ("a".to_string(), "b $1".to_string()),
        ("b".to_string(), "kick $1".to_string()),
    ];
    assert_eq!(
        expand_aliases("/a troll", &aliases),
        Ok("/kick troll".to_string())
    );
    let circle: Vec<(String, String)> = vec![
        ("x".to_string(), "y".to_string()),
        ("y".to_string(), "x".to_string()),
    ];
    assert!(expand_aliases("/x", &circle).is_err());
    assert_eq!(expand_aliases("/kick a", &circle), Ok("/kick a".to_string()));
    assert_eq!(
        expand_aliases("/unalias x", &circle),
        Ok("/unalias x".to_string())
    );
}

#[test]
fn an_unknown_command_is_kept_as_typed() {
    assert_eq!(
        parse("/Frob x"),
        Some(SlashCommand::Unknown("/Frob".to_string()))
    );
    assert_eq!(
        parse("/NS identify"),
        Some(SlashCommand::Msg {
            target: "NickServ".to_string(),
            text: "identify".to_string(),
        })
    );
}

#[test]
fn an_expanded_line_is_expanded_to_the_end() {
    let aliases: Vec<(String, String)> = vec![
        ("a".to_string(), "b $1".to_string()),
        ("b".to_string(), "w $1".to_string()),
        ("slash".to_string(), "$1".to_string()),
        ("blank".to_string(), "$9".to_string()),
    ];
    for line in ["/a neo", "/w neo", "/slash /x", "/blank", "/msg a b", "plain", "//a"] {
        let once = expand_aliases(line, &aliases).expect("a line");
        assert_eq!(expand_aliases(&once, &aliases), Ok(once));
    }
    assert_eq!(expand_aliases("/a neo", &aliases), Ok("/whois neo".to_string()));
}
