use shellglass::api::{server_cors, store_images, Cors, PushOptions, ServeOptions, IMAGE_STORE_CAP};
use shellglass::cli::{
    default_shell, describe_source, detached_info, key_lines, key_of, mint_key, minted, parse_size,
    push_banner, rec_target, rejects_everything, AttachArgs, HubArgs, HubRequest, IdSaltArg, KeyArg,
    PushArgs, RecTarget, RecordingsCmd, Registry, ServeArgs, SessionsArgs, SessionsCmd, SizeError,
    SourceArgs, Tls, TlsConflict, KEY_BYTES,
};
use shellglass::diff::image_store::ImageStore;
use shellglass::json::Extent;
use shellglass::model::{Grid, ImageBlob, ImagePlacement};

#[test]
fn parse_size_accepts_wxh() {
    assert_eq!(parse_size("160x50").unwrap(), (160, 50));
    assert_eq!(parse_size(" 80X24 ").unwrap(), (80, 24));
}

#[test]
fn parse_size_rejects_bad_input() {
    assert!(parse_size("160").is_err());
    assert!(parse_size("axb").is_err());
    assert!(parse_size("0x0").is_err());
}

#[test]
fn parse_size_names_what_is_wrong() {
    assert_eq!(parse_size(""), Err(SizeError::NoCross));
    assert_eq!(parse_size("160*50"), Err(SizeError::NoCross));
    assert_eq!(parse_size("x24"), Err(SizeError::BadWidth));
    assert_eq!(parse_size("65536x24"), Err(SizeError::BadWidth));
    assert_eq!(parse_size("-1x24"), Err(SizeError::BadWidth));
    assert_eq!(parse_size("80x"), Err(SizeError::BadHeight));
    assert_eq!(parse_size("80x24x2"), Err(SizeError::BadHeight));
    assert_eq!(parse_size("80x0"), Err(SizeError::Zero));
    assert_eq!(parse_size("0x24"), Err(SizeError::Zero));
    assert_eq!(parse_size("65535x65535"), Ok((65535, 65535)));
    assert_eq!(parse_size("+080 x\t\u{3000}024\n"), Ok((80, 24)));
}

fn words(v: &[&str]) -> Vec<String> {
    v.iter().map(|s| s.to_string()).collect()
}

fn source(v: &[&str]) -> SourceArgs {
    SourceArgs { config: None, sixel_compat: false, command: words(v) }
}

#[test]
fn the_shell_is_mirrored_unless_a_command_is_given() {
    assert_eq!(default_shell(None), "/bin/sh");
    assert_eq!(default_shell(Some("/bin/zsh".into())), "/bin/zsh");
    assert_eq!(source(&[]).command(Some("/bin/zsh".into())), words(&["/bin/zsh"]));
    assert_eq!(source(&[]).command(None), words(&["/bin/sh"]));
    assert_eq!(source(&["bash", "-l"]).command(None), words(&["bash", "-l"]));
    assert_eq!(describe_source(&source(&["bash", "-l"]), None), "`bash -l`");
    assert_eq!(describe_source(&source(&[]), None), "`/bin/sh`");
}

#[test]
fn options_have_their_defaults() {
    let o = ServeOptions::new("127.0.0.1:8080".into());
    assert_eq!(o.bind, "127.0.0.1:8080");
    assert_eq!(o.ssh_motd_delay, 5);
    assert_eq!(o.source_label, "an external frame source");
    assert!(o.cors_origins.is_empty() && o.ssh_bind.is_none() && o.record_dir.is_none());
    assert_eq!(
        o.banner("127.0.0.1:8080"),
        "shellglass: mirroring an external frame source at http://127.0.0.1:8080/"
    );
    let p = PushOptions::new("http://h".into(), "k".into());
    assert!(p.url == "http://h" && p.key == "k" && !p.no_record && !p.eager_start);
}

#[test]
fn serve_hands_its_options_on() {
    let args = ServeArgs {
        source: source(&["top"]),
        bind: "0.0.0.0:1".into(),
        cors_origin: words(&["*"]),
        ssh_bind: Some("s".into()),
        ssh_host_key: Some("k".into()),
        ssh_motd_file: Some("m".into()),
        ssh_motd_delay: 9,
        record_dir: Some("d".into()),
    };
    let (src, o) = args.options(None);
    assert_eq!(src.command, words(&["top"]));
    assert_eq!((o.bind.as_str(), o.ssh_motd_delay), ("0.0.0.0:1", 9));
    assert_eq!(o.cors_origins, words(&["*"]));
    assert_eq!(o.ssh_bind.as_deref(), Some("s"));
    assert_eq!(o.ssh_host_key.as_deref(), Some("k"));
    assert_eq!(o.ssh_motd_file.as_deref(), Some("m"));
    assert_eq!(o.record_dir.as_deref(), Some("d"));
    assert_eq!(o.source_label, "`top`");
}

#[test]
fn other_origins_read_only_what_is_listed() {
    assert!(matches!(server_cors(&Vec::new()), Cors::SameOrigin));
    assert!(matches!(server_cors(&words(&["https://a", "*"])), Cors::Any));
    match server_cors(&words(&["https://a", "bad\nvalue", "https://b"])) {
        Cors::Listed(l) => assert_eq!(l, words(&["https://a", "https://b"])),
        _ => panic!("listed origins"),
    }
}

fn push_args() -> PushArgs {
    PushArgs {
        url: "https://hub.example//".into(),
        key: KeyArg { key: "k".into() },
        source: source(&[]),
        no_record: true,
        detachable: true,
        socket: None,
        size: "100x30".into(),
        daemon: true,
        log_file: None,
    }
}

#[test]
fn a_daemon_tells_where_it_is_reached() {
    let mut args = push_args();
    assert!(args.needs_id());
    let d = args.daemonize_if_requested("/run/user/1", "abc").unwrap().unwrap();
    assert_eq!(d.log, "/run/user/1/shellglass-abc.log");
    assert_eq!(
        d.info,
        "shellglass: daemonized detached session on /run/user/1/shellglass-abc.sock\n\
         shellglass: attach with `shellglass attach /run/user/1/shellglass-abc.sock`\n\
         shellglass: logging to /run/user/1/shellglass-abc.log\n"
    );
    // The socket is settled: another directory or id changes nothing any more.
    let s = args.detached(None, "/elsewhere", "other").unwrap().unwrap();
    assert_eq!(s.socket, "/run/user/1/shellglass-abc.sock");
    assert_eq!(s.size, (100, 30));
    assert_eq!(s.command, words(&["/bin/sh"]));
}

#[test]
fn a_daemon_is_not_started_with_a_bad_size() {
    let mut args = push_args();
    args.size = "100".into();
    assert_eq!(args.daemonize_if_requested("/run", "abc").unwrap_err(), SizeError::NoCross);
    assert!(args.socket.is_none());
    assert_eq!(args.detached(None, "/run", "abc").unwrap_err(), SizeError::NoCross);
}

#[test]
fn an_ordinary_push_keeps_its_terminal() {
    let mut args = push_args();
    args.daemon = false;
    args.detachable = false;
    args.size = "nonsense".into();
    assert!(!args.needs_id());
    assert!(args.daemonize_if_requested("/run", "abc").unwrap().is_none());
    assert!(args.detached(None, "/run", "abc").unwrap().is_none());
    let (_, o) = args.options();
    assert_eq!((o.url.as_str(), o.key.as_str()), ("https://hub.example//", "k"));
    assert!(o.no_record && !o.eager_start);
}

#[test]
fn the_user_is_told_where_things_are() {
    assert_eq!(push_banner("https://hub.example//"), "shellglass: pushing live to https://hub.example");
    assert_eq!(
        detached_info("/s.sock"),
        "shellglass: detached session on /s.sock\nshellglass: attach with `shellglass attach /s.sock`\n"
    );
}

#[test]
fn attach_begins_with_a_hello() {
    let (socket, hello) = AttachArgs { socket: "/s".into(), force: true }.run();
    assert_eq!(socket, "/s");
    assert_eq!(hello, [3, 0, 0, 0, 1, 1]);
    let (_, hello) = AttachArgs { socket: "/s".into(), force: false }.run();
    assert_eq!(hello, [3, 0, 0, 0, 1, 0]);
}

#[test]
fn keys_are_printed_with_their_ids() {
    assert_eq!(key_lines(false, "K", "I"), "key: K\nid:  I\n");
    assert_eq!(key_lines(true, "K", "I"), "key:    K\napi-id: I\n");
}

#[test]
fn keys_are_drawn_anew_and_fit_an_address() {
    let a = mint_key().unwrap();
    let b = mint_key().unwrap();
    assert_ne!(a, b);
    assert_ne!(a, key_of(&vec![0u8; KEY_BYTES]), "the bytes were overwritten");
    for k in [&a, &b] {
        assert_eq!(k.len(), 43);
        assert!(k.chars().all(|c| c.is_ascii_alphanumeric() || c == '-' || c == '_'));
    }
    assert_eq!(key_of(&vec![255u8; KEY_BYTES]), "_".repeat(42) + "8");
    assert_eq!(IdSaltArg::default().id_salt, "");
}

#[test]
fn a_draw_makes_a_key_or_fails_as_it_did() {
    let bytes = vec![255u8; KEY_BYTES];
    assert_eq!(minted(Ok(()), &bytes).unwrap(), key_of(&bytes));
    let failure = getrandom::Error::UNSUPPORTED;
    assert_eq!(minted(Err(failure), &bytes), Err(failure));
}

fn hub_args() -> HubArgs {
    HubArgs {
        bind: "127.0.0.1:8080".into(),
        cors_origin: Vec::new(),
        allow: Vec::new(),
        api_allow: Vec::new(),
        sessions_file: None,
        id_salt: IdSaltArg::default(),
        tls_cert: None,
        tls_key: None,
        acme_domain: Vec::new(),
        acme_email: None,
        acme_cache: None,
        acme_production: false,
        ssh_bind: None,
        ssh_host_key: None,
        ssh_motd_file: None,
        ssh_motd_delay: 5,
        record_dir: None,
    }
}

#[test]
fn tls_follows_the_options() {
    let mut a = hub_args();
    let plain = Tls::from_args(&a).unwrap();
    assert!(matches!(plain, Tls::Plain));
    assert_eq!(plain.base_url("1.2.3.4:80"), "http://1.2.3.4:80");
    a.acme_domain = words(&["hub.example", "two.example"]);
    a.acme_production = true;
    let acme = Tls::from_args(&a).unwrap();
    assert_eq!(acme.base_url("1.2.3.4:80"), "https://hub.example");
    match acme {
        Tls::Acme { domains, production, .. } => {
            assert_eq!(domains, a.acme_domain);
            assert!(production);
        }
        _ => panic!("a domain was given"),
    }
    a.tls_cert = Some("c".into());
    a.tls_key = Some("k".into());
    assert_eq!(Tls::from_args(&a).unwrap_err(), TlsConflict {});
    assert!(TlsConflict {}.message().contains("not both"));
    a.acme_domain.clear();
    let fixed = Tls::from_args(&a).unwrap();
    assert_eq!(fixed.base_url("1.2.3.4:80"), "https://1.2.3.4:80");
    assert!(matches!(fixed, Tls::Static { cert, key } if cert == "c" && key == "k"));
}

#[test]
fn a_sessions_file_outweighs_allow() {
    let mut a = hub_args();
    assert_eq!(a.registry(false), (Registry::Allow, None));
    a.sessions_file = Some("/s.json".into());
    assert_eq!(a.registry(true), (Registry::File, None));
    assert_eq!(
        a.registry(false),
        (
            Registry::Seed,
            Some("shellglass: seeding new sessions file /s.json from --allow".to_string())
        )
    );
    a.allow = words(&["id"]);
    assert_eq!(
        a.registry(true),
        (
            Registry::File,
            Some("shellglass: --allow ignored — session registry loaded from /s.json".to_string())
        )
    );
    assert!(rejects_everything(0, 0));
    assert!(!rejects_everything(1, 0) && !rejects_everything(0, 1));
}

#[test]
fn requests_name_their_session() {
    let run = |cmd: SessionsCmd| SessionsArgs { url: "u".into(), key: "k".into(), cmd }.run();
    assert!(matches!(run(SessionsCmd::List), HubRequest::List));
    assert!(matches!(
        run(SessionsCmd::Add { id: "i".into(), slug: Some("s".into()) }),
        HubRequest::Add { id, slug: Some(s) } if id == "i" && s == "s"
    ));
    assert!(matches!(
        run(SessionsCmd::Remove { id: Some("i".into()), slug: None }),
        HubRequest::Remove(RecTarget::Id(i)) if i == "i"
    ));
    assert!(matches!(
        run(SessionsCmd::Remove { id: None, slug: Some("s".into()) }),
        HubRequest::Remove(RecTarget::Slug(s)) if s == "s"
    ));
    assert!(matches!(
        run(SessionsCmd::Recordings {
            id: None,
            slug: Some("s".into()),
            cmd: RecordingsCmd::Delete { name: "1.sgs".into() },
        }),
        HubRequest::Recordings {
            target: RecTarget::Slug(s),
            cmd: RecordingsCmd::Delete { name },
        } if s == "s" && name == "1.sgs"
    ));
    assert!(matches!(rec_target(&Some("i".into()), &Some("s".into())), RecTarget::Id(i) if i == "i"));
}

#[test]
fn a_screen_fills_the_store_and_keeps_what_it_shows() {
    let blob = |n: usize| ImageBlob {
        mime: "image/png".into(),
        bytes: bytes::Bytes::from(vec![1u8; n]),
    };
    let mut store = ImageStore::new(10);
    let mut g = Grid::default();
    g.images.push(ImagePlacement {
        row: 0,
        col: 0,
        cols: Some(Extent::whole(1)),
        rows: None,
        hash: "shown".into(),
    });
    g.image_data.push(("shown".into(), blob(6)));
    g.image_data.push(("gone".into(), blob(4)));
    g.image_data.push(("new".into(), blob(4)));
    store_images(&mut store, &g);
    assert!(store.get("shown").is_some());
    assert!(store.get("gone").is_none());
    assert!(store.get("new").is_some());
    assert_eq!(store.total(), 10);
    assert_eq!(IMAGE_STORE_CAP, 64 * 1024 * 1024);
}
