use webserver::config::Config;

#[test]
fn default_text_holds_port_and_pool_size() {
    let text = Config::default_text();
    assert_eq!(text, "#Config for WebServer\nPort: 7878\nThreadPoolSize: 5\n");
    assert!(Config::has_line(&text, 2));
    assert_eq!(Config::loadConfig(&text, "PORT".to_string()), "7878");
    assert_eq!(Config::loadConfig(&text, "THREAD_POOL_SIZE".to_string()), "5");
}

#[test]
fn unknown_setting_gets_the_notice() {
    let text = Config::default_text();
    for name in ["", "port", "PORT ", "THREADS", "THREAD_POOL_SIZE\n"] {
        assert_eq!(Config::loadConfig(&text, name.to_string()), "Unable to read config file!");
    }
}

#[test]
fn settings_are_read_by_line_not_by_label() {
    // Line 1 is the port and line 2 the pool size, whatever they say.
    let text = "x\nThreadPoolSize: 9\nPort: 80";
    assert!(Config::has_line(text, 2));
    assert_eq!(Config::loadConfig(text, "PORT".to_string()), "ThreadPoolSize: 9");
    assert_eq!(Config::loadConfig(text, "THREAD_POOL_SIZE".to_string()), "Port: 80");
}

#[test]
fn every_label_is_struck_from_its_line() {
    let text = "h\nPort: 12Port: 34\nThreadPoolSize: ThreadPoolSize: 8\r\nmore\n";
    assert_eq!(Config::loadConfig(text, "PORT".to_string()), "1234");
    assert_eq!(Config::loadConfig(text, "THREAD_POOL_SIZE".to_string()), "8\r");
    let text = "\n\n";
    assert!(Config::has_line(text, 2));
    assert_eq!(Config::loadConfig(text, "PORT".to_string()), "");
    assert_eq!(Config::loadConfig(text, "THREAD_POOL_SIZE".to_string()), "");
}

#[test]
fn text_of_fewer_than_three_lines_is_incomplete() {
    for text in ["", "Config file wasn't found!", "a\n", "a\nb", "#Config for WebServer\nPort: 7878"] {
        assert!(!Config::has_line(text, 2), "{:?}", text);
    }
    for text in ["a\nb\n", "a\nb\nc", "\n\n\n\n"] {
        assert!(Config::has_line(text, 2), "{:?}", text);
    }
}

#[test]
fn has_line_counts_the_pieces_between_line_feeds() {
    assert!(Config::has_line("", 0));
    assert!(!Config::has_line("", 1));
    assert!(Config::has_line("a\n", 1));
    assert!(!Config::has_line("a\n", 2));
    assert!(Config::has_line("a\nb\nc\nd", 3));
    assert!(!Config::has_line("a\nb\nc\nd", 4));
    assert!(Config::has_line("Config file wasn't found!", 0));
    assert!(!Config::has_line("Config file wasn't found!", 1));
}

#[test]
fn address_is_on_the_local_host() {
    assert_eq!(Config::address("7878"), "127.0.0.1:7878");
    assert_eq!(Config::address(""), "127.0.0.1:");
}
