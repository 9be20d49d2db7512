use lyys_panel::distro::Family;
use lyys_panel::docker::{
    check_id, check_image_id, check_image_ref, check_project_name, compose_command, compose_prefix_from,
    compose_project_from_members, container_action_args, docker_install_plan, locate_project, logs_args,
    parse_compose_json, parse_containers, parse_images, project_from_labels, projects_from_labels, pull_args,
    remove_image_args, retry_success_output, status_from_probes, Action, ComposeProject, DockerError,
};

fn strs(v: &[String]) -> Vec<&str> {
    v.iter().map(|s| s.as_str()).collect()
}

#[test]
fn container_identifiers() {
    assert_eq!(check_id("web_1"), Ok(()));
    assert_eq!(check_id("3f2a9c.b-x"), Ok(()));
    assert_eq!(check_id(""), Err(DockerError::BadId));
    assert_eq!(check_id("-rf"), Err(DockerError::BadId));
    assert_eq!(check_id("a b"), Err(DockerError::BadId));
    assert_eq!(check_id("a;rm"), Err(DockerError::BadId));
    assert_eq!(check_id(&"a".repeat(128)), Ok(()));
    assert_eq!(check_id(&"a".repeat(129)), Err(DockerError::BadId));
    assert_eq!(check_project_name("blog"), Ok(()));
    assert_eq!(check_project_name("-p"), Err(DockerError::BadProjectName));
}

#[test]
fn image_references() {
    assert_eq!(check_image_ref("nginx"), Ok(()));
    assert_eq!(check_image_ref("ghcr.io/owner/app:1.2"), Ok(()));
    assert_eq!(check_image_ref("alpine@sha256:0123abcd"), Ok(()));
    assert_eq!(check_image_ref(""), Err(DockerError::BadImageRef));
    assert_eq!(check_image_ref("--help"), Err(DockerError::BadImageRef));
    assert_eq!(check_image_ref("nginx latest"), Err(DockerError::BadImageRef));
    assert_eq!(check_image_ref(&"a".repeat(257)), Err(DockerError::BadImageRef));
    assert_eq!(check_image_id("sha256:abc"), Ok(()));
    assert_eq!(check_image_id(""), Err(DockerError::BadImageId));
    assert_eq!(check_image_id("-f"), Err(DockerError::BadImageId));
    assert_eq!(check_image_id(&"é".repeat(129)), Err(DockerError::BadImageId));
    assert_eq!(check_image_id(&"é".repeat(128)), Ok(()));
}

#[test]
fn compose_project_label() {
    assert_eq!(
        project_from_labels("maintainer=me, com.docker.compose.project=blog,com.docker.compose.service=db"),
        "blog"
    );
    assert_eq!(project_from_labels("a=b"), "");
    assert_eq!(project_from_labels(""), "");
}

#[test]
fn containers_with_stats() {
    let ps = "abc\tweb\tnginx\trunning\tUp 3 hours\t0.0.0.0:80->80/tcp\t3 hours ago\tcom.docker.compose.project=site\n\
              def\tdb\tpostgres\texited\tExited (0)\t\t2 days ago\n\
              short\tline\n";
    let stats = "abc\t1.5%\t20MiB / 1GiB\n";
    let list = parse_containers(ps, stats);
    assert_eq!(list.len(), 2);
    assert_eq!(list[0].id, "abc");
    assert_eq!(list[0].name, "web");
    assert_eq!(list[0].image, "nginx");
    assert_eq!(list[0].state, "running");
    assert_eq!(list[0].status, "Up 3 hours");
    assert_eq!(list[0].ports, "0.0.0.0:80->80/tcp");
    assert_eq!(list[0].running_for, "3 hours ago");
    assert_eq!(list[0].cpu, "1.5%");
    assert_eq!(list[0].mem, "20MiB / 1GiB");
    assert_eq!(list[0].project, "site");
    assert_eq!(list[1].id, "def");
    assert_eq!(list[1].ports, "");
    assert_eq!(list[1].cpu, "");
    assert_eq!(list[1].mem, "");
    assert_eq!(list[1].project, "");
}

#[test]
fn containers_without_stats() {
    let list = parse_containers("a\tb\tc\td\te\tf\tg\n", "");
    assert_eq!(list.len(), 1);
    assert_eq!(list[0].cpu, "");
    assert_eq!(list[0].project, "");
}

#[test]
fn images_listing() {
    let text = "sha256:1\tnginx\tlatest\t187MB\t2 weeks ago\nbad\tline\n";
    let list = parse_images(text);
    assert_eq!(list.len(), 1);
    assert_eq!(list[0].id, "sha256:1");
    assert_eq!(list[0].repository, "nginx");
    assert_eq!(list[0].tag, "latest");
    assert_eq!(list[0].size, "187MB");
    assert_eq!(list[0].created, "2 weeks ago");
}

#[test]
fn projects_aggregated_from_labels() {
    let text = "running\tcom.docker.compose.project=web,com.docker.compose.project.working_dir=/srv/web,com.docker.compose.project.config_files=/srv/web/compose.yml\n\
                exited\tcom.docker.compose.project=web,com.docker.compose.project.working_dir=/other\n\
                running\tcom.docker.compose.project=api\n\
                running\tno.project=here\n";
    let list = projects_from_labels(text);
    assert_eq!(list.len(), 2);
    assert_eq!(list[0].name, "api");
    assert_eq!(list[0].status, "1/1 运行中");
    assert_eq!(list[0].containers, 1);
    assert_eq!(list[0].working_dir, "");
    assert_eq!(list[1].name, "web");
    assert_eq!(list[1].status, "1/2 运行中");
    assert_eq!(list[1].containers, 2);
    // the first container names the directory and files
    assert_eq!(list[1].working_dir, "/srv/web");
    assert_eq!(list[1].config_files, "/srv/web/compose.yml");
}

#[test]
fn compose_json_listing() {
    let text = "{\"Name\":\"blog\",\"Status\":\"running(2)\",\"ConfigFiles\":\"/srv/blog/compose.yml\"}\n\n{\"Name\":\"x\"}\n";
    let list = parse_compose_json(text).unwrap();
    assert_eq!(list.len(), 2);
    assert_eq!(list[0].name, "blog");
    assert_eq!(list[0].status, "running(2)");
    assert_eq!(list[0].config_files, "/srv/blog/compose.yml");
    assert_eq!(list[0].working_dir, "");
    assert_eq!(list[0].containers, 0);
    assert_eq!(list[1].name, "x");
    assert_eq!(list[1].status, "");
    assert!(matches!(parse_compose_json("not json\n"), Err(DockerError::BadComposeJson)));
    assert!(parse_compose_json("").unwrap().is_empty());
    let p = compose_project_from_members(Some("n".to_string()), None, Some("/c.yml".to_string()));
    assert_eq!(p.name, "n");
    assert_eq!(p.status, "");
    assert_eq!(p.config_files, "/c.yml");
}

#[test]
fn compose_prefix_choice() {
    assert_eq!(compose_prefix_from(true, true), Some(vec!["docker".to_string(), "compose".to_string()]));
    assert_eq!(compose_prefix_from(false, true), Some(vec!["docker-compose".to_string()]));
    assert_eq!(compose_prefix_from(false, false), None);
}

#[test]
fn status_of_the_installation() {
    let st = status_from_probes(false, None, false, None);
    assert!(!st.installed && !st.running && !st.daemon);
    assert_eq!(st.error, "未检测到 Docker");
    let st = status_from_probes(true, None, false, None);
    assert!(st.daemon && !st.installed);
    assert_eq!(st.error, "检测到 Docker 守护进程正在运行，但缺少 docker 命令行工具（docker-cli）");
    let st = status_from_probes(true, Some("Docker version 26.1.5"), true, Some(vec!["docker".to_string(), "compose".to_string()]));
    assert!(st.installed && st.running && st.daemon);
    assert_eq!(st.version, "Docker version 26.1.5");
    assert_eq!(st.compose, "v2");
    assert_eq!(st.error, "");
    let st = status_from_probes(false, Some("Docker version 26.1.5"), false, Some(vec!["docker-compose".to_string()]));
    assert!(st.installed && !st.running);
    assert_eq!(st.compose, "v1");
    assert_eq!(st.error, "Docker 已安装但守护进程未运行，请启动 docker 服务");
    let st = status_from_probes(false, Some("v"), true, None);
    assert_eq!(st.compose, "");
}

#[test]
fn container_operations() {
    assert_eq!(strs(&container_action_args("web", Action::Start).unwrap()), ["start", "web"]);
    assert_eq!(strs(&container_action_args("web", Action::Stop).unwrap()), ["stop", "web"]);
    assert_eq!(strs(&container_action_args("web", Action::Restart).unwrap()), ["restart", "web"]);
    assert_eq!(strs(&container_action_args("web", Action::Remove).unwrap()), ["rm", "-f", "web"]);
    assert_eq!(container_action_args("web", Action::Up), Err(DockerError::Unsupported));
    assert_eq!(container_action_args("-x", Action::Start), Err(DockerError::BadId));
    assert_eq!(strs(&logs_args("web", 0).unwrap()), ["logs", "--tail", "1", "web"]);
    assert_eq!(strs(&logs_args("web", 200).unwrap()), ["logs", "--tail", "200", "web"]);
    assert_eq!(strs(&logs_args("web", 99999).unwrap()), ["logs", "--tail", "5000", "web"]);
    assert_eq!(strs(&pull_args("nginx:1.27").unwrap()), ["pull", "nginx:1.27"]);
    assert_eq!(pull_args("a b"), Err(DockerError::BadImageRef));
    assert_eq!(strs(&remove_image_args("sha256:1").unwrap()), ["rmi", "-f", "sha256:1"]);
}

#[test]
fn compose_operations() {
    let v2 = vec!["docker".to_string(), "compose".to_string()];
    let c = compose_command("blog", Action::Up, &v2, "/srv/blog", "/srv/blog/compose.yml").unwrap();
    assert_eq!(c.program, "docker");
    assert_eq!(strs(&c.args), ["compose", "-f", "/srv/blog/compose.yml", "-p", "blog", "up", "-d"]);
    assert_eq!(c.dir, "/srv/blog");
    let v1 = vec!["docker-compose".to_string()];
    let c = compose_command("blog", Action::Down, &v1, "", "").unwrap();
    assert_eq!(c.program, "docker-compose");
    assert_eq!(strs(&c.args), ["-p", "blog", "down"]);
    let c = compose_command("blog", Action::Restart, &v1, "", "").unwrap();
    assert_eq!(strs(&c.args), ["-p", "blog", "restart"]);
    assert!(matches!(compose_command("blog", Action::Stop, &v1, "", ""), Err(DockerError::Unsupported)));
    assert!(matches!(compose_command("a/b", Action::Up, &v1, "", ""), Err(DockerError::BadProjectName)));
}

#[test]
fn project_location() {
    let projects = vec![
        ComposeProject {
            name: "blog".to_string(),
            status: String::new(),
            config_files: "/srv/blog/compose.yml".to_string(),
            working_dir: String::new(),
            containers: 0,
        },
        ComposeProject {
            name: "api".to_string(),
            status: String::new(),
            config_files: "/x/compose.yml".to_string(),
            working_dir: "/srv/api".to_string(),
            containers: 1,
        },
    ];
    assert_eq!(locate_project(&projects, "blog"), ("/srv/blog".to_string(), "/srv/blog/compose.yml".to_string()));
    assert_eq!(locate_project(&projects, "api"), ("/srv/api".to_string(), "/x/compose.yml".to_string()));
    assert_eq!(locate_project(&projects, "none"), (String::new(), String::new()));
}

#[test]
fn install_plans() {
    let p = docker_install_plan(Family::Debian);
    assert_eq!(p.program, "apt-get");
    assert_eq!(strs(&p.update_args), ["update"]);
    assert_eq!(
        strs(&p.install_args),
        ["install", "-y", "--no-install-recommends", "docker.io", "docker-cli", "docker-compose"]
    );
    let p = docker_install_plan(Family::Arch);
    assert_eq!(p.program, "pacman");
    assert_eq!(strs(&p.update_args), ["-Sy", "--noconfirm"]);
    assert_eq!(strs(&p.install_args), ["-S", "--noconfirm", "docker", "docker-compose"]);
}

#[test]
fn retried_command_output() {
    assert_eq!(retry_success_output("ok", 1), "ok");
    assert_eq!(retry_success_output("ok", 2), "ok\n（第 2 次尝试成功）\n");
}
