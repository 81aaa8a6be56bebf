use umbra::commands::{
    check_launch_target, kill_result, parse_power_command, power_command_args, power_executed_message,
    process_image_name, PowerCommand,
};

#[test]
fn web_addresses_skip_the_file_check() {
    assert_eq!(check_launch_target("https://x.org", |_: &str| false), Ok(()));
    assert_eq!(check_launch_target("C:\\a.exe", |_: &str| true), Ok(()));
    assert_eq!(check_launch_target("C:\\b.exe", |_: &str| false), Err("Path not found: C:\\b.exe".to_string()));
}

#[test]
fn kill_names_get_an_exe_suffix() {
    assert_eq!(process_image_name(" notepad "), "notepad.exe");
    assert_eq!(process_image_name("Chrome.EXE"), "Chrome.EXE");
    assert_eq!(kill_result("notepad.exe", true), Ok("Killed notepad.exe".to_string()));
    assert_eq!(kill_result("notepad.exe", false), Err("Failed to kill process".to_string()));
}

#[test]
fn power_commands_are_recognised() {
    assert_eq!(parse_power_command(" Shutdown "), Ok(PowerCommand::Shutdown));
    assert_eq!(parse_power_command("restart"), Ok(PowerCommand::Restart));
    assert_eq!(parse_power_command("SLEEP"), Ok(PowerCommand::Sleep));
    assert_eq!(parse_power_command("reboot"), Err("Unknown power command: reboot".to_string()));
    assert_eq!(power_command_args(PowerCommand::Restart), vec!["shutdown", "/r", "/t", "0"]);
    assert_eq!(power_executed_message(" Shutdown "), "Executed: shutdown");
}
